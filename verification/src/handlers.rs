//! The endpoints that keep no state and read at most the query string.

use vstd::prelude::*;
use vstd::string::StringExecFns;
use crate::reply::Reply;

verus! {

/// The pairs that `form_urlencoded::parse` yields for a query string, in
/// order, each name and value percent-decoded.
pub uninterp spec fn query_pairs_of(query: Seq<char>) -> Seq<(Seq<char>, Seq<char>)>;

/// The views of a vector of owned pairs, position by position.
pub open spec fn pair_views(pairs: Seq<(String, String)>) -> Seq<(Seq<char>, Seq<char>)> {
    Seq::new(pairs.len(), |i: int| (pairs[i].0@, pairs[i].1@))
}

/// The value of the first pair named `name`; the empty string where no pair
/// has that name.
pub open spec fn first_value(pairs: Seq<(Seq<char>, Seq<char>)>, name: Seq<char>) -> Seq<char>
    decreases pairs.len(),
{
    if pairs.len() == 0 {
        Seq::empty()
    } else if pairs[0].0 == name {
        pairs[0].1
    } else {
        first_value(pairs.subrange(1, pairs.len() as int), name)
    }
}

/// `i` is the position of the first pair named `name`.
pub open spec fn is_first_named(pairs: Seq<(Seq<char>, Seq<char>)>, name: Seq<char>, i: int) -> bool {
    &&& 0 <= i < pairs.len()
    &&& pairs[i].0 == name
    &&& forall|j: int| 0 <= j < i ==> (#[trigger] pairs[j]).0 != name
}

/// The first value is the value at the first position that has the name.
pub proof fn lemma_first_value_found(pairs: Seq<(Seq<char>, Seq<char>)>, name: Seq<char>, i: int)
    requires
        is_first_named(pairs, name, i),
    ensures
        first_value(pairs, name) == pairs[i].1,
    decreases pairs.len(),
{
    if i > 0 {
        let rest = pairs.subrange(1, pairs.len() as int);
        assert(pairs[0].0 != name);
        assert(is_first_named(rest, name, i - 1)) by {
            assert(rest[i - 1] == pairs[i]);
            assert forall|j: int| 0 <= j < i - 1 implies (#[trigger] rest[j]).0 != name by {
                assert(rest[j] == pairs[j + 1]);
            }
        }
        lemma_first_value_found(rest, name, i - 1);
    }
}

/// The first value is empty where no pair has the name.
pub proof fn lemma_first_value_absent(pairs: Seq<(Seq<char>, Seq<char>)>, name: Seq<char>)
    requires
        forall|j: int| 0 <= j < pairs.len() ==> (#[trigger] pairs[j]).0 != name,
    ensures
        first_value(pairs, name) == Seq::<char>::empty(),
    decreases pairs.len(),
{
    if pairs.len() > 0 {
        let rest = pairs.subrange(1, pairs.len() as int);
        assert(pairs[0].0 != name);
        assert forall|j: int| 0 <= j < rest.len() implies (#[trigger] rest[j]).0 != name by {
            assert(rest[j] == pairs[j + 1]);
        }
        lemma_first_value_absent(rest, name);
    }
}

/// The text that answers a request whose query holds `pairs`.
pub open spec fn question_text(pairs: Seq<(Seq<char>, Seq<char>)>) -> Seq<char> {
    "Question: "@ + first_value(pairs, "q"@)
}

/// Calls `form_urlencoded::parse` on the bytes of `query` and collects the
/// owned pairs. The parser splits at `&`, skips empty pieces, splits each
/// piece at its first `=`, and decodes both halves; it depends on the bytes
/// alone and never fails. The contract only names that result.
#[verifier::external_body]
fn query_pairs(query: &str) -> (pairs: Vec<(String, String)>)
    ensures
        pair_views(pairs@) == query_pairs_of(query@),
{
    form_urlencoded::parse(query.as_bytes()).into_owned().collect()
}

/// The health check: always the same acknowledgment.
pub fn healthz() -> (body: String)
    ensures
        body@ == "OK"@,
{
    String::from_str("OK")
}

/// Answers with the value of the first pair named `q`, or with nothing
/// after the prefix where the query has no such pair.
pub fn question(pairs: &Vec<(String, String)>) -> (body: String)
    ensures
        body@ == question_text(pair_views(pairs@)),
{
    let wanted = String::from_str("q");
    let mut body = String::from_str("Question: ");
    let ghost all = pair_views(pairs@);
    let mut i: usize = 0;
    assert(all.subrange(0, all.len() as int) == all);
    while i < pairs.len()
        invariant
            i <= pairs.len(),
            all == pair_views(pairs@),
            wanted@ == "q"@,
            body@ == "Question: "@,
            first_value(all, "q"@) == first_value(all.subrange(i as int, all.len() as int), "q"@),
        decreases pairs.len() - i,
    {
        let ghost rest = all.subrange(i as int, all.len() as int);
        assert(rest[0] == all[i as int]);
        assert(rest.subrange(1, rest.len() as int) == all.subrange(i + 1, all.len() as int));
        if pairs[i].0 == wanted {
            body.append(pairs[i].1.as_str());
            return body;
        }
        i += 1;
    }
    assert(body@ + Seq::<char>::empty() == body@);
    body
}

/// Echoes the `q` parameter of a raw query string (the part of a URL after
/// `?`, still percent-encoded; empty where the URL has none).
pub fn random(query: &str) -> (body: String)
    ensures
        body@ == question_text(query_pairs_of(query@)),
{
    let pairs = query_pairs(query);
    question(&pairs)
}

/// The status of the teapot endpoint.
pub const TEAPOT: u16 = 418;

/// The teapot endpoint: a status outside the usual ones, with a fixed text.
pub fn custom_error() -> (reply: Reply)
    ensures
        reply.status == 418,
        reply.body@ == "Sometimes things do not go to plan... \u{1F937}"@,
{
    Reply { status: TEAPOT, body: String::from_str("Sometimes things do not go to plan... \u{1F937}") }
}

} // verus!
