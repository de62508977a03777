//! The envelope every command shares: the parameters it requires are
//! checked in order before the command runs.
use vstd::prelude::*;
use crate::text::concat;

verus! {

/// The first required parameter that is missing, by its position in the
/// list of `(name, present)` pairs.
pub open spec fn first_missing(params: Seq<(Seq<char>, bool)>) -> Option<int>
    decreases params.len(),
{
    if params.len() == 0 {
        None
    } else if !params[0].1 {
        Some(0)
    } else {
        match first_missing(params.drop_first()) {
            Some(i) => Some(i + 1),
            None => None,
        }
    }
}

/// The error a command answers when a required parameter is missing: it
/// names the first one missing; `None` when all are present.
pub fn missing_parameter(params: &Vec<(String, bool)>) -> (r: Option<String>)
    ensures
        match first_missing(params@.map_values(|p: (String, bool)| (p.0@, p.1))) {
            Some(i) => r matches Some(m) && m@ == "missing required parameter: "@ + params@[i].0@,
            None => r is None,
        },
{
    let ghost pv = params@.map_values(|p: (String, bool)| (p.0@, p.1));
    let mut i: usize = 0;
    assert(pv.skip(0) =~= pv);
    while i < params.len()
        invariant
            i <= params.len(),
            pv == params@.map_values(|p: (String, bool)| (p.0@, p.1)),
            first_missing(pv) == match first_missing(pv.skip(i as int)) {
                Some(k) => Some(k + i),
                None => None::<int>,
            },
        decreases params.len() - i,
    {
        assert(pv.skip(i as int)[0] == (params@[i as int].0@, params@[i as int].1));
        assert(pv.skip(i as int).drop_first() =~= pv.skip(i + 1));
        if !params[i].1 {
            return Some(concat("missing required parameter: ", params[i].0.as_str()));
        }
        i = i + 1;
    }
    assert(pv.skip(i as int).len() == 0);
    None
}

} // verus!
