//! The path recognizer of the `route_recognizer` crate, behind a small
//! contract: a recognizer holds an ordered list of `(pattern, handler)` routes,
//! and what it answers for a path depends on that list and the path alone.
use crate::string_map::{pairs_map, pairs_view};
use route_recognizer::Params;
use route_recognizer::Router as Recognizer;
use vstd::prelude::*;

verus! {

#[verifier::external_type_specification]
#[verifier::external_body]
#[verifier::reject_recursive_types(T)]
pub struct ExRecognizer<T>(Recognizer<T>);

#[verifier::external_type_specification]
#[verifier::external_body]
pub struct ExParams(Params);

/// The parameters that a `Params` holds, by name.
pub uninterp spec fn params_contents(p: Params) -> Map<Seq<char>, Seq<char>>;

/// No parameters.
pub open spec fn no_params() -> Map<Seq<char>, Seq<char>> {
    Map::empty()
}

/// The routes added to a recognizer, in the order in which they were added.
pub uninterp spec fn recognizer_routes(r: Recognizer<usize>) -> Seq<(Seq<char>, usize)>;

/// What a recognizer built from `routes` answers for `path`: the handler of
/// the route that wins, and its named captures; or nothing when no route
/// matches.
pub uninterp spec fn recognized(routes: Seq<(Seq<char>, usize)>, path: Seq<char>) -> Option<
    (usize, Map<Seq<char>, Seq<char>>),
>;

/// A pattern without its leading `/`, as the recognizer reads it.
pub open spec fn strip_leading_slash(p: Seq<char>) -> Seq<char> {
    if p.len() > 0 && p[0] == '/' {
        p.drop_first()
    } else {
        p
    }
}

/// The recognizer slices a pattern after its first byte, so that first
/// character, past a leading `/`, must be a single byte; and it computes
/// `c as u32 - 1` for every character, which overflows on NUL.
pub open spec fn recognizer_accepts(p: Seq<char>) -> bool {
    let r = strip_leading_slash(p);
    &&& !p.contains('\0')
    &&& (r.len() == 0 || (r[0] as u32) < 128)
}

/// Relies on `route_recognizer::Router::new`: a recognizer with no routes.
#[verifier::external_body]
pub(crate) fn recognizer_new() -> (r: Recognizer<usize>)
    ensures
        recognizer_routes(r) == Seq::<(Seq<char>, usize)>::empty(),
{
    Recognizer::new()
}

/// Relies on `route_recognizer::Router::add`: the route is added after the
/// others. It slices the pattern at byte 1 and overflows on NUL, hence the
/// `requires`.
#[verifier::external_body]
pub(crate) fn recognizer_add(r: &mut Recognizer<usize>, pattern: &str, handler: usize)
    requires
        recognizer_accepts(pattern@),
    ensures
        recognizer_routes(*final(r)) == recognizer_routes(*old(r)).push((pattern@, handler)),
{
    r.add(pattern, handler)
}

/// Relies on `route_recognizer::Router::recognize`: the matched handler and
/// the named captures (an `Err` is no match). The handler is one that `add`
/// stored. Matching a NUL character overflows, hence the `requires`.
#[verifier::external_body]
pub(crate) fn recognizer_match(r: &Recognizer<usize>, path: &str) -> (m: Option<(usize, Params)>)
    requires
        !path@.contains('\0'),
    ensures
        match m {
            Some(found) => recognized(recognizer_routes(*r), path@) == Some(
                (found.0, params_contents(found.1)),
            ) && exists|i: int|
                0 <= i < recognizer_routes(*r).len() && #[trigger] recognizer_routes(*r)[i].1
                    == found.0,
            None => recognized(recognizer_routes(*r), path@) is None,
        },
{
    match r.recognize(path) {
        Ok(found) => Some((**found.handler(), found.params().clone())),
        Err(_) => None,
    }
}

/// Relies on `route_recognizer::Params::new`: no parameters.
#[verifier::external_body]
pub(crate) fn params_new() -> (r: Params)
    ensures
        params_contents(r) == no_params(),
{
    Params::new()
}

/// Relies on `route_recognizer::Params::insert`: a `BTreeMap` insert, which
/// replaces the value under an existing name.
#[verifier::external_body]
pub(crate) fn params_insert(p: &mut Params, key: String, value: String)
    ensures
        params_contents(*final(p)) == params_contents(*old(p)).insert(key@, value@),
{
    p.insert(key, value)
}

/// Relies on `route_recognizer::Params::find`: the value under a name.
#[verifier::external_body]
pub(crate) fn params_find(p: &Params, key: &str) -> (r: Option<String>)
    ensures
        match r {
            Some(v) => params_contents(*p).contains_key(key@) && params_contents(*p)[key@] == v@,
            None => !params_contents(*p).contains_key(key@),
        },
{
    p.find(key).map(|v| v.to_string())
}

/// Relies on `route_recognizer::Params::iter`: every parameter once, as a
/// `(name, value)` pair.
#[verifier::external_body]
pub(crate) fn params_entries(p: &Params) -> (r: Vec<(String, String)>)
    ensures
        pairs_map(pairs_view(r@)) == params_contents(*p),
{
    p.iter().map(|(k, v)| (k.to_string(), v.to_string())).collect()
}

} // verus!
