//! Decoding a whole input against an ordered pool of capabilities.

use vstd::prelude::*;
use vstd::slice::slice_subrange;

use crate::search::{lemma_found_in_pool, parse_one_from_many, search_pool, FoundModel};
use crate::shape::{lemma_texts_concat, pool_model, texts, CapabilityModel, Extension,
    IntoExtensionShape};

verus! {

/// Why a decode ended without a result. Either way nothing of what had been
/// decoded so far is handed out.
#[derive(Debug)]
pub enum ParseFailure<'a> {
    /// No capability that was still eligible matches at `rest`.
    Unrecognized {
        /// The input from the point where the search failed.
        rest: &'a str,
    },
    /// Input is left at `rest`, but every capability has been used or
    /// passed over.
    TrailingInput {
        /// The input that was left over.
        rest: &'a str,
    },
}

/// The mathematical value of a [`ParseFailure`].
pub ghost enum FailureModel {
    Unrecognized(Seq<char>),
    TrailingInput(Seq<char>),
}

impl<'a> View for ParseFailure<'a> {
    type V = FailureModel;

    open spec fn view(&self) -> FailureModel {
        match self {
            ParseFailure::Unrecognized { rest } => FailureModel::Unrecognized(rest@),
            ParseFailure::TrailingInput { rest } => FailureModel::TrailingInput(rest@),
        }
    }
}

/// A finished decode, as mathematics: the texts of all tokens in the order
/// they were produced, and the places in the pool of the capabilities that
/// produced them, one for each search that was made.
pub ghost struct DecodedModel {
    pub tokens: Seq<Seq<char>>,
    pub indices: Seq<int>,
}

/// Places in a pool, each moved up by `offset`.
pub open spec fn shifted(indices: Seq<int>, offset: int) -> Seq<int> {
    Seq::new(indices.len(), |i: int| indices[i] + offset)
}

/// What is left to decode, put behind what has been decoded: the tokens are
/// laid end to end, and the places found in the remaining pool are moved up
/// by `offset`, the number of capabilities that the remaining pool lacks. A
/// failure of what was left is the failure of the whole.
pub open spec fn continued(
    tokens: Seq<Seq<char>>,
    indices: Seq<int>,
    offset: int,
    tail: Result<DecodedModel, FailureModel>,
) -> Result<DecodedModel, FailureModel> {
    match tail {
        Ok(more) => Ok(
            DecodedModel {
                tokens: tokens + more.tokens,
                indices: indices + shifted(more.indices, offset),
            },
        ),
        Err(e) => Err(e),
    }
}

/// What decoding `input` against `pool` gives.
///
/// Empty input is decoded, to nothing. Input with no capability left fails
/// as trailing. Otherwise the pool is searched: a failed search fails the
/// decode, and a match at place `index` yields its tokens and leaves the
/// rest of the input to the capabilities after `index` only. A capability
/// is thus used at most once, and never after a later one.
pub open spec fn decode(input: Seq<char>, pool: Seq<CapabilityModel>) -> Result<
    DecodedModel,
    FailureModel,
>
    decreases pool.len(),
{
    if input.len() == 0 {
        Ok(DecodedModel { tokens: Seq::empty(), indices: Seq::empty() })
    } else if pool.len() == 0 {
        Err(FailureModel::TrailingInput(input))
    } else {
        match search_pool(input, pool) {
            Err(at) => Err(FailureModel::Unrecognized(at)),
            Ok(found) => {
                proof {
                    lemma_found_in_pool(input, pool);
                }
                continued(
                    found.tokens,
                    seq![found.index],
                    found.index + 1,
                    decode(found.rest, pool.skip(found.index + 1)),
                )
            },
        }
    }
}

/// The mathematical value of what [`parse`] returns: the texts of the tokens,
/// or the failure.
pub open spec fn parsed_model(r: Result<(&str, Vec<Extension>), ParseFailure>) -> Result<
    Seq<Seq<char>>,
    FailureModel,
> {
    match r {
        Ok((_, tokens)) => Ok(texts(tokens@)),
        Err(e) => Err(e@),
    }
}

/// The tokens that decoding `input` against `pool` gives, or the failure.
pub open spec fn decoded_tokens(input: Seq<char>, pool: Seq<CapabilityModel>) -> Result<
    Seq<Seq<char>>,
    FailureModel,
> {
    match decode(input, pool) {
        Ok(d) => Ok(d.tokens),
        Err(e) => Err(e),
    }
}

/// Putting two decoded stretches in front of what is left is the same as
/// putting their concatenation in front of it.
proof fn lemma_continued_twice(
    tokens: Seq<Seq<char>>,
    indices: Seq<int>,
    offset: int,
    found: FoundModel,
    tail: Result<DecodedModel, FailureModel>,
)
    ensures
        continued(
            tokens,
            indices,
            offset,
            continued(found.tokens, seq![found.index], found.index + 1, tail),
        ) == continued(
            tokens + found.tokens,
            indices.push(found.index + offset),
            offset + found.index + 1,
            tail,
        ),
{
    if let Ok(more) = tail {
        let inner = seq![found.index] + shifted(more.indices, found.index + 1);
        assert(indices + shifted(inner, offset) =~= indices.push(found.index + offset) + shifted(
            more.indices,
            offset + found.index + 1,
        ));
        assert(tokens + (found.tokens + more.tokens) =~= (tokens + found.tokens) + more.tokens);
    }
}

/// The places at which a successful decode matched lie in the pool and
/// strictly increase from one search to the next: no capability is used
/// twice, and none is used after one that stands behind it in the pool.
pub proof fn lemma_matched_places_increase(input: Seq<char>, pool: Seq<CapabilityModel>)
    ensures
        decode(input, pool) matches Ok(d) ==> {
            &&& forall|i: int| 0 <= i < d.indices.len() ==> 0 <= #[trigger] d.indices[i] < pool.len()
            &&& forall|i: int, j: int|
                0 <= i < j < d.indices.len() ==> #[trigger] d.indices[i] < #[trigger] d.indices[j]
        },
    decreases pool.len(),
{
    if input.len() > 0 && pool.len() > 0 {
        if let Ok(found) = search_pool(input, pool) {
            lemma_found_in_pool(input, pool);
            let left = pool.skip(found.index + 1);
            lemma_matched_places_increase(found.rest, left);
            if let Ok(more) = decode(found.rest, left) {
                let d = decode(input, pool)->Ok_0;
                let moved = shifted(more.indices, found.index + 1);
                assert(d.indices == seq![found.index] + moved);
                assert forall|i: int| 0 <= i < d.indices.len() implies 0 <= #[trigger] d.indices[i]
                    < pool.len() by {
                    if i > 0 {
                        assert(d.indices[i] == more.indices[i - 1] + found.index + 1);
                    }
                }
                assert forall|i: int, j: int| 0 <= i < j < d.indices.len() implies #[trigger]
                    d.indices[i] < #[trigger] d.indices[j] by {
                    assert(d.indices[j] == more.indices[j - 1] + found.index + 1);
                    if i > 0 {
                        assert(d.indices[i] == more.indices[i - 1] + found.index + 1);
                    }
                }
            }
        }
    }
}

/// Decoding has no hidden state. Whatever [`parse`] returns for an input and
/// a pool is fixed by the text of the input and by what the capabilities of
/// the pool report: any two results that meet its contract, for equal input
/// and pools that report the same, hold the same tokens or the same failure,
/// and the same remainder.
pub proof fn lemma_parse_is_deterministic(
    input: Seq<char>,
    first_pool: Seq<&dyn IntoExtensionShape>,
    second_pool: Seq<&dyn IntoExtensionShape>,
    first: Result<(&str, Vec<Extension>), ParseFailure>,
    second: Result<(&str, Vec<Extension>), ParseFailure>,
)
    requires
        pool_model(first_pool) == pool_model(second_pool),
        parsed_model(first) == decoded_tokens(input, pool_model(first_pool)),
        first matches Ok((rest, _)) ==> rest@.len() == 0,
        parsed_model(second) == decoded_tokens(input, pool_model(second_pool)),
        second matches Ok((rest, _)) ==> rest@.len() == 0,
    ensures
        parsed_model(first) == parsed_model(second),
        first is Ok <==> second is Ok,
        first matches Ok((rest, _)) ==> second matches Ok((other, _)) && rest@ == other@,
{
    if let Ok((rest, _)) = first {
        let other = second->Ok_0.0;
        assert(rest@ =~= other@);
    }
}

/// Decodes the whole of `input` against an ordered pool of capabilities.
///
/// Works from left to right without ever going back: the pool is searched
/// for the first capability that matches at the current position, its tokens
/// are added to the result, and the search goes on behind the match with the
/// capabilities that come after it in the pool. On success the remainder
/// returned is empty and the tokens are those of [`decode`]. The decode
/// fails where input is left and no capability is, or where none of those
/// left matches; the failure carries the input that was not consumed.
pub fn parse<'a>(input: &'a str, extensions: &[&dyn IntoExtensionShape]) -> (r: Result<
    (&'a str, Vec<Extension>),
    ParseFailure<'a>,
>)
    ensures
        parsed_model(r) == decoded_tokens(input@, pool_model(extensions@)),
        r matches Ok((rest, _)) ==> rest@.len() == 0,
{
    let ghost pool = pool_model(extensions@);
    let ghost mut indices: Seq<int> = Seq::empty();
    let mut rest = input;
    let mut start: usize = 0;
    let mut accum: Vec<Extension> = Vec::new();
    proof {
        let whole = decode(input@, pool);
        assert(pool.skip(0) =~= pool);
        if let Ok(d) = whole {
            assert(Seq::<Seq<char>>::empty() + d.tokens =~= d.tokens);
            assert(Seq::<int>::empty() + shifted(d.indices, 0) =~= d.indices);
        }
    }
    loop
        invariant
            start <= extensions.len(),
            pool == pool_model(extensions@),
            decode(input@, pool) == continued(
                texts(accum@),
                indices,
                start as int,
                decode(rest@, pool.skip(start as int)),
            ),
        decreases extensions.len() - start,
    {
        if !rest.is_empty() && start == extensions.len() {
            return Err(ParseFailure::TrailingInput { rest });
        }
        if rest.is_empty() {
            proof {
                assert(texts(accum@) + Seq::<Seq<char>>::empty() =~= texts(accum@));
            }
            return Ok((rest, accum));
        }
        let remaining = slice_subrange(extensions, start, extensions.len());
        let ghost left = pool.skip(start as int);
        assert(pool_model(remaining@) =~= left);
        match parse_one_from_many(rest, remaining) {
            Err(e) => {
                return Err(ParseFailure::Unrecognized { rest: e.rest });
            },
            Ok((after, (mut found, pos))) => {
                proof {
                    let hit = search_pool(rest@, left)->Ok_0;
                    lemma_found_in_pool(rest@, left);
                    assert(left.skip(pos + 1) =~= pool.skip(start + pos + 1));
                    lemma_continued_twice(
                        texts(accum@),
                        indices,
                        start as int,
                        hit,
                        decode(after@, left.skip(pos + 1)),
                    );
                    lemma_texts_concat(accum@, found@);
                    indices = indices.push(pos + start);
                }
                accum.append(&mut found);
                rest = after;
                start = start + pos + 1;
            },
        }
    }
}

} // verus!
