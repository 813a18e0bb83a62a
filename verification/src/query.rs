//! Fitting a query to a chosen width. The interactive shell lets the user
//! pick a target length: widening a query appends wildcards, narrowing
//! truncates from the end.

use vstd::prelude::*;
use crate::text::{chars_of, string_from_chars};

verus! {

/// `q` fitted to `target` characters: truncated from the end when it is too
/// long, extended with the wildcard `?` when it is too short.
pub open spec fn spec_adjust(q: Seq<char>, target: int) -> Seq<char> {
    if q.len() >= target {
        q.take(target)
    } else {
        q + Seq::new((target - q.len()) as nat, |i: int| '?')
    }
}

/// The query `query` fitted to exactly `target` characters, as
/// [`spec_adjust`] states: over-long queries lose characters from the end,
/// short ones gain wildcards there.
pub fn adjust_query_width(query: &str, target: usize) -> (r: String)
    ensures
        r@ == spec_adjust(query@, target as int),
        r@.len() == target,
{
    let mut cs = chars_of(query);
    let ghost q = query@;
    if cs.len() >= target {
        cs.truncate(target);
        proof {
            assert(cs@ =~= q.take(target as int));
        }
    } else {
        while cs.len() < target
            invariant
                q.len() < target,
                q.len() <= cs.len() <= target,
                cs@ == q + Seq::new((cs@.len() - q.len()) as nat, |i: int| '?'),
            decreases target - cs.len(),
        {
            cs.push('?');
            proof {
                assert(cs@ =~= q + Seq::new((cs@.len() - q.len()) as nat, |i: int| '?'));
            }
        }
    }
    string_from_chars(&cs)
}

} // verus!
