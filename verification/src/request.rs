//! The filter that a subscriber asks for in its handshake.
//!
//! The request target's query may hold the parameter `ids`, a list of sender
//! ids separated by commas. A session with such a list receives those senders
//! only; a session without one receives all.

use crate::error::RelayError;
use vstd::prelude::*;

verus! {

/// The base that the request target is resolved against.
pub open spec fn base_url() -> Seq<char> {
    "ws://localhost"@
}

/// The name of the query parameter that carries the sender ids.
pub open spec fn ids_key() -> Seq<char> {
    "ids"@
}

/// The name/value pairs, percent-decoded and in their order, of the query of
/// the URL that `text` spells, or `None` where `text` spells no absolute URL.
pub uninterp spec fn query_pairs_of(text: Seq<char>) -> Option<Seq<(Seq<char>, Seq<char>)>>;

/// `url::ParseError`, the reason why a text spells no URL, carried as an
/// opaque value.
#[verifier::external_type_specification]
#[verifier::external_body]
pub struct ExParseError(url::ParseError);

/// Calls `Url::parse` of the url crate and then `Url::query_pairs` on the
/// parsed URL. Trusted: the pairs, or the failure to parse, depend on `text`
/// alone.
#[verifier::external_body]
fn query_pairs(text: &str) -> (r: Result<Vec<(String, String)>, url::ParseError>)
    ensures
        match r {
            Ok(pairs) => query_pairs_of(text@) == Some(pairs.deep_view()),
            Err(_) => query_pairs_of(text@) is None,
        },
{
    let parsed = url::Url::parse(text)?;
    Ok(parsed.query_pairs().into_owned().collect())
}

/// `text` holds a comma at index `i` and none before it.
pub open spec fn first_comma_at(text: Seq<char>, i: int) -> bool {
    &&& 0 <= i < text.len()
    &&& text[i] == ','
    &&& forall|j: int| 0 <= j < i ==> text[j] != ','
}

/// The pieces of `text` between its commas, in order. A text without a comma
/// is one piece, and so is the empty text.
pub open spec fn split_commas(text: Seq<char>) -> Seq<Seq<char>>
    decreases text.len(),
{
    if exists|i: int| first_comma_at(text, i) {
        let i = choose|i: int| first_comma_at(text, i);
        seq![text.subrange(0, i)] + split_commas(text.subrange(i + 1, text.len() as int))
    } else {
        seq![text]
    }
}

/// The sender ids that one query pair names: those of a non-empty value
/// under the key `ids`.
pub open spec fn ids_of_pair(pair: (Seq<char>, Seq<char>)) -> Seq<Seq<char>> {
    if pair.0 == ids_key() && pair.1.len() > 0 {
        split_commas(pair.1)
    } else {
        Seq::empty()
    }
}

/// The sender ids that the pairs name, in the order of the pairs.
pub open spec fn ids_of_pairs(pairs: Seq<(Seq<char>, Seq<char>)>) -> Seq<Seq<char>>
    decreases pairs.len(),
{
    if pairs.len() == 0 {
        Seq::empty()
    } else {
        ids_of_pairs(pairs.drop_last()) + ids_of_pair(pairs.last())
    }
}

/// The filter that the pairs ask for: their sender ids, or none where they
/// name no id.
pub open spec fn filter_of_pairs(pairs: Seq<(Seq<char>, Seq<char>)>) -> Option<Seq<Seq<char>>> {
    let ids = ids_of_pairs(pairs);
    if ids.len() > 0 {
        Some(ids)
    } else {
        None
    }
}

/// The filter that a request target asks for, or `None` where the target,
/// set behind the base, spells no URL.
pub open spec fn filter_of_target(target: Seq<char>) -> Option<Option<Seq<Seq<char>>>> {
    match query_pairs_of(base_url() + target) {
        Some(pairs) => Some(filter_of_pairs(pairs)),
        None => None,
    }
}

/// Splits a list of sender ids at its commas.
pub fn split_ids(value: &str) -> (ids: Vec<String>)
    ensures
        ids.deep_view() == split_commas(value@),
{
    let n: usize = value.unicode_len();
    let mut ids: Vec<String> = Vec::new();
    let mut start: usize = 0;
    let mut i: usize = 0;
    let chars = value.chars();
    proof {
        assert(value@.subrange(0, n as int) == value@);
        assert(ids.deep_view() + split_commas(value@) == split_commas(value@));
    }
    for c in it: chars
        invariant
            n == value@.len(),
            it.seq() == value@,
            i == it.index(),
            start <= i,
            forall|j: int| start <= j < i ==> value@[j] != ',',
            split_commas(value@) == ids.deep_view() + split_commas(
                value@.subrange(start as int, n as int),
            ),
    {
        if c == ',' {
            let piece = value.substring_char(start, i);
            proof {
                let rest = value@.subrange(start as int, n as int);
                assert(first_comma_at(rest, i - start));
                let k = choose|k: int| first_comma_at(rest, k);
                assert(k == i - start);
                assert(rest.subrange(0, k) == piece@);
                assert(rest.subrange(k + 1, rest.len() as int) == value@.subrange(
                    i + 1,
                    n as int,
                ));
                assert(ids.deep_view().push(piece@) + split_commas(
                    value@.subrange(i + 1, n as int),
                ) == ids.deep_view() + split_commas(rest));
            }
            let ghost before = ids.deep_view();
            ids.push(String::from_str(piece));
            assert(ids.deep_view() == before.push(piece@));
            start = i + 1;
        }
        i += 1;
    }
    let piece = value.substring_char(start, n);
    proof {
        let rest = value@.subrange(start as int, n as int);
        assert(rest == piece@);
        assert(!exists|k: int| first_comma_at(rest, k));
        assert(split_commas(rest) == seq![rest]);
    }
    let ghost before = ids.deep_view();
    ids.push(String::from_str(piece));
    assert(ids.deep_view() == before.push(piece@));
    ids
}

/// Gathers the sender ids that the query pairs of a handshake name.
pub fn scale_ids_from_pairs(pairs: &Vec<(String, String)>) -> (filter: Option<Vec<String>>)
    ensures
        filter.deep_view() == filter_of_pairs(pairs.deep_view()),
{
    let key = String::from_str("ids");
    let mut ids: Vec<String> = Vec::new();
    let mut k: usize = 0;
    assert(pairs.deep_view().subrange(0, 0) == Seq::<(Seq<char>, Seq<char>)>::empty());
    while k < pairs.len()
        invariant
            k <= pairs.len(),
            key@ == ids_key(),
            ids.deep_view() == ids_of_pairs(pairs.deep_view().subrange(0, k as int)),
        decreases pairs.len() - k,
    {
        let ghost before = ids.deep_view();
        let ghost seen = pairs.deep_view().subrange(0, k as int);
        let ghost next = pairs.deep_view().subrange(0, k + 1);
        proof {
            assert(next.drop_last() == seen);
            assert(next.last() == pairs.deep_view()[k as int]);
        }
        let pair = &pairs[k];
        if pair.0 == key && !pair.1.as_str().is_empty() {
            let mut more = split_ids(pair.1.as_str());
            let ghost added = more.deep_view();
            ids.append(&mut more);
            assert(ids.deep_view() == before + added);
        } else {
            assert(ids.deep_view() == before + Seq::<Seq<char>>::empty());
        }
        k += 1;
    }
    assert(pairs.deep_view().subrange(0, k as int) == pairs.deep_view());
    if ids.len() > 0 {
        Some(ids)
    } else {
        None
    }
}

/// Reads the filter that a handshake asks for from its request target, the
/// path and query of the request line.
pub fn parse_scale_ids(target: &str) -> (r: Result<Option<Vec<String>>, RelayError>)
    ensures
        match r {
            Ok(filter) => filter_of_target(target@) == Some(filter.deep_view()),
            Err(e) => e == RelayError::InvalidRequestTarget && filter_of_target(target@) is None,
        },
{
    let mut text = String::from_str("ws://localhost");
    text.append(target);
    match query_pairs(text.as_str()) {
        Ok(pairs) => Ok(scale_ids_from_pairs(&pairs)),
        Err(_) => Err(RelayError::InvalidRequestTarget),
    }
}

} // verus!
