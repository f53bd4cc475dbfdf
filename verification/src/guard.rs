//! The content-type guard: a POST must say that its body is JSON.

use vstd::prelude::*;
use vstd::string::StringExecFns;
use crate::reply::Failure;

verus! {

/// The views of the values of a header, position by position.
pub open spec fn value_views(values: Seq<String>) -> Seq<Seq<char>> {
    values.map_values(|value: String| value@)
}

/// A header passes for JSON when it has exactly one value and that value
/// is `application/json`, letter for letter.
pub open spec fn names_json(values: Seq<Seq<char>>) -> bool {
    values.len() == 1 && values[0] == "application/json"@
}

/// A request is turned away when it is a POST and its content type is
/// absent or does not pass for JSON.
pub open spec fn turned_away(is_post: bool, content_type: Option<Seq<Seq<char>>>) -> bool {
    is_post && match content_type {
        Some(values) => !names_json(values),
        None => true,
    }
}

/// Decides whether a request may go on to its route, from its method and
/// the values of its `Content-Type` header (`None` where it has none).
pub fn check_content_type_header(is_post: bool, content_type: Option<&Vec<String>>) -> (verdict:
    Result<(), Failure>)
    ensures
        verdict == if turned_away(
            is_post,
            match content_type {
                Some(values) => Some(value_views(values@)),
                None => None,
            },
        ) {
            Err::<(), Failure>(Failure::UnsupportedMediaType)
        } else {
            Ok::<(), Failure>(())
        },
{
    if !is_post {
        return Ok(());
    }
    match content_type {
        Some(values) => {
            let json = String::from_str("application/json");
            if values.len() == 1 && values[0] == json {
                Ok(())
            } else {
                Err(Failure::UnsupportedMediaType)
            }
        },
        None => Err(Failure::UnsupportedMediaType),
    }
}

} // verus!
