//! Collision-free identifier allocation.  A candidate is a random 32-bit
//! value; it is rejected when it falls below the reserved threshold or is
//! already used in the target table's ID column, and the search is bounded
//! so that a saturated identifier space surfaces as an error instead of a
//! livelock.

use vstd::prelude::*;

use crate::ext::random_bytes;
use crate::strings::{dec_digits, dec_str, str_eq};
use crate::Error;

verus! {

/// Identifiers below this value are reserved and never allocated.
pub const RESERVED_LIMIT: u32 = 100;

/// How many candidates are drawn before allocation gives up.
pub const MAX_ATTEMPTS: usize = 64;

/// `n` is allocatable against the identifiers in `existing`: at or above
/// the reserved threshold and not yet present in the column.
pub open spec fn id_ok(n: u32, existing: Seq<Seq<char>>) -> bool {
    &&& n >= RESERVED_LIMIT
    &&& forall|k: int| 0 <= k < existing.len() ==> #[trigger] existing[k] != dec_digits(n as nat)
}

/// The views of the identifier column handed to the allocator.
pub open spec fn column(existing: Seq<String>) -> Seq<Seq<char>> {
    existing.map_values(|s: String| s@)
}

/// The first allocatable candidate, or `AllocationExhausted` when none of
/// the candidates can be used.
pub fn pick_id(candidates: &Vec<u32>, existing: &Vec<String>) -> (r: Result<u32, Error>)
    ensures
        (match r {
            Ok(id) => exists|k: int|
                0 <= k < candidates@.len() && #[trigger] candidates@[k] == id && id_ok(
                    id,
                    column(existing@),
                ) && forall|j: int| 0 <= j < k ==> !id_ok(candidates@[j], column(existing@)),
            Err(e) => {
                &&& e == Error::AllocationExhausted
                &&& forall|k: int|
                    0 <= k < candidates@.len() ==> !id_ok(
                        #[trigger] candidates@[k],
                        column(existing@),
                    )
            },
        }),
{
    let n = candidates.len();
    let mut i: usize = 0;
    while i < n
        invariant
            n == candidates@.len(),
            i <= n,
            forall|j: int| 0 <= j < i ==> !id_ok(candidates@[j], column(existing@)),
        decreases n - i,
    {
        let c = candidates[i];
        if c >= RESERVED_LIMIT {
            let rendered = dec_str(c);
            let m = existing.len();
            let mut j: usize = 0;
            let mut used = false;
            while j < m
                invariant
                    m == existing@.len(),
                    j <= m,
                    rendered@ == dec_digits(c as nat),
                    used == exists|k: int|
                        0 <= k < j && #[trigger] column(existing@)[k] == dec_digits(c as nat),
                decreases m - j,
            {
                if str_eq(existing[j].as_str(), rendered.as_str()) {
                    proof {
                        assert(column(existing@)[j as int] == dec_digits(c as nat));
                    }
                    used = true;
                }
                j = j + 1;
            }
            if !used {
                proof {
                    assert(id_ok(c, column(existing@)));
                }
                return Ok(c);
            }
            proof {
                assert(!id_ok(candidates@[i as int], column(existing@)));
            }
        } else {
            proof {
                assert(!id_ok(candidates@[i as int], column(existing@)));
            }
        }
        i = i + 1;
    }
    Err(Error::AllocationExhausted)
}

/// Draw up to [`MAX_ATTEMPTS`] random candidates and return the first
/// that is allocatable against `existing`.  A returned identifier is at
/// or above the reserved threshold and unused in the column at the moment
/// of the check; the bounded search fails with `AllocationExhausted`
/// rather than looping without end.
pub fn next_id(existing: &Vec<String>) -> (r: Result<u32, Error>)
    ensures
        (match r {
            Ok(id) => id_ok(id, column(existing@)),
            Err(e) => e == Error::AllocationExhausted,
        }),
{
    let mut candidates: Vec<u32> = Vec::new();
    let mut i: usize = 0;
    while i < MAX_ATTEMPTS
        decreases MAX_ATTEMPTS - i,
    {
        match random_bytes() {
            Some(b) => {
                let c = ((b[0] as u32) << 24u32) | ((b[1] as u32) << 16u32) | ((b[2] as u32)
                    << 8u32) | (b[3] as u32);
                candidates.push(c);
            },
            None => (),
        }
        i = i + 1;
    }
    pick_id(&candidates, existing)
}

} // verus!
