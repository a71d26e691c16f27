//! Searching an ordered pool for the first capability that matches.

use vstd::prelude::*;

use crate::matcher::{match_one, matches_at, parse_one};
use crate::shape::{model_of, pool_model, texts, CapabilityModel, Extension, IntoExtensionShape};

verus! {

/// No capability of the pool matches at the start of the input. Unlike a
/// single mismatch this is final: it ends a whole decode.
#[derive(Debug)]
pub struct Unrecognized<'a> {
    /// The input that no capability matched, exactly as it was searched.
    pub rest: &'a str,
}

/// A successful search, as mathematics: what is left of the input, the texts
/// of the tokens produced, and the place of the winning capability in the
/// pool that was searched.
pub ghost struct FoundModel {
    pub rest: Seq<char>,
    pub tokens: Seq<Seq<char>>,
    pub index: int,
}

/// The place of the first capability at or after `from` that matches at the
/// start of `input`, if there is one.
pub open spec fn first_match_from(input: Seq<char>, pool: Seq<CapabilityModel>, from: int) -> Option<
    int,
>
    decreases pool.len() - from,
{
    if from < 0 || from >= pool.len() {
        None
    } else if matches_at(input, pool[from]) {
        Some(from)
    } else {
        first_match_from(input, pool, from + 1)
    }
}

/// The place of the first capability of the pool that matches at the start
/// of `input`, if there is one.
pub open spec fn first_match(input: Seq<char>, pool: Seq<CapabilityModel>) -> Option<int> {
    first_match_from(input, pool, 0)
}

/// What searching `pool` gives for `input`: the match of the first
/// capability that matches, with its place, or the input itself where none
/// does.
///
/// Every capability is tried against the same `input`. A capability that
/// fails leaves no trace, even where it had recognised its literal before
/// failing: the next one starts from the same position.
pub open spec fn search_pool(input: Seq<char>, pool: Seq<CapabilityModel>) -> Result<
    FoundModel,
    Seq<char>,
> {
    match first_match(input, pool) {
        Some(index) => {
            let m = match_one(input, pool[index])->Ok_0;
            Ok(FoundModel { rest: m.rest, tokens: m.tokens, index })
        },
        None => Err(input),
    }
}

/// The mathematical value of what [`parse_one_from_many`] returns.
pub open spec fn found_model(r: Result<(&str, (Vec<Extension>, usize)), Unrecognized>) -> Result<
    FoundModel,
    Seq<char>,
> {
    match r {
        Ok((rest, (tokens, pos))) => Ok(
            FoundModel { rest: rest@, tokens: texts(tokens@), index: pos as int },
        ),
        Err(e) => Err(e.rest@),
    }
}

/// What `first_match_from` finds is the earliest match at or after `from`:
/// it lies in the pool, it matches, and nothing between `from` and it does.
/// It finds nothing only where nothing at or after `from` matches.
pub proof fn lemma_first_match_from(input: Seq<char>, pool: Seq<CapabilityModel>, from: int)
    requires
        0 <= from,
    ensures
        match first_match_from(input, pool, from) {
            Some(index) => {
                &&& from <= index < pool.len()
                &&& matches_at(input, pool[index])
                &&& forall|j: int| from <= j < index ==> !matches_at(input, #[trigger] pool[j])
            },
            None => forall|j: int| from <= j < pool.len() ==> !matches_at(input, #[trigger] pool[j]),
        },
    decreases pool.len() - from,
{
    if from < pool.len() && !matches_at(input, pool[from]) {
        lemma_first_match_from(input, pool, from + 1);
    }
}

/// First match wins. The search succeeds exactly when some capability of the
/// pool matches, and then reports the earliest one in pool order with the
/// result of matching it; where several could match, the later ones are
/// never looked at. It fails exactly when no capability matches, and then
/// reports the input unchanged.
pub proof fn lemma_first_match_wins(input: Seq<char>, pool: Seq<CapabilityModel>)
    ensures
        search_pool(input, pool) is Ok <==> exists|j: int|
            0 <= j < pool.len() && matches_at(input, #[trigger] pool[j]),
        search_pool(input, pool) matches Ok(found) ==> {
            &&& 0 <= found.index < pool.len()
            &&& match_one(input, pool[found.index]) matches Ok(m) && m.rest == found.rest
                && m.tokens == found.tokens
            &&& forall|j: int| 0 <= j < found.index ==> !matches_at(input, #[trigger] pool[j])
        },
        search_pool(input, pool) matches Err(at) ==> at == input,
{
    lemma_first_match_from(input, pool, 0);
}

/// A successful search always names a place inside the pool it searched.
pub proof fn lemma_found_in_pool(input: Seq<char>, pool: Seq<CapabilityModel>)
    ensures
        search_pool(input, pool) matches Ok(found) ==> 0 <= found.index < pool.len(),
{
    lemma_first_match_from(input, pool, 0);
}

/// Tries the capabilities of a pool in order against the start of `input`
/// and stops at the first that matches.
///
/// On success returns the unconsumed remainder, the decoded tokens and the
/// place of the winning capability in `extensions`. Capabilities that do not
/// match are skipped, each tried against the same `input`. Where none
/// matches the search fails and hands `input` back.
pub fn parse_one_from_many<'a>(input: &'a str, extensions: &[&dyn IntoExtensionShape]) -> (r:
    Result<(&'a str, (Vec<Extension>, usize)), Unrecognized<'a>>)
    ensures
        found_model(r) == search_pool(input@, pool_model(extensions@)),
{
    let ghost pool = pool_model(extensions@);
    let mut pos: usize = 0;
    while pos < extensions.len()
        invariant
            pos <= extensions.len(),
            pool == pool_model(extensions@),
            first_match(input@, pool) == first_match_from(input@, pool, pos as int),
        decreases extensions.len() - pos,
    {
        assert(pool[pos as int] == model_of(extensions@[pos as int]));
        match parse_one(input, extensions[pos]) {
            Ok((rest, tokens)) => {
                return Ok((rest, (tokens, pos)));
            },
            Err(_) => {
                pos += 1;
            },
        }
    }
    Err(Unrecognized { rest: input })
}

} // verus!
