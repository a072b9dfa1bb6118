use vstd::prelude::*;

use crate::error::RangeError;

verus! {

/// Slice of a chronological history log by recency offsets.
///
/// `log` is append-ordered (oldest first). `start` and `end` are 0-based
/// offsets counted from the most recent entry backward; the result holds the
/// entries whose recency rank falls in `[start, end]` inclusive, ordered
/// most-recent-first, so entry `k` of the result is `log[len - 1 - start - k]`.
///
/// Fails with a range error exactly when `start > end` or either offset is
/// at or past the log length; this is a strict check, with no clamping.
pub fn history_slice(log: &Vec<String>, start: usize, end: usize) -> (r: Result<
    Vec<String>,
    RangeError,
>)
    ensures
        r is Ok <==> (start <= end && end < log@.len()),
        r matches Ok(v) ==> {
            &&& v@.len() == end - start + 1
            &&& forall|k: int|
                0 <= k < v@.len() ==> v@[k]@ == log@[log@.len() - 1 - start - k]@
        },
        r matches Err(e) ==> e == (RangeError::BadSlice { start, end, len: log@.len() as usize }),
{
    let len = log.len();
    if start > end || end >= len {
        return Err(RangeError::BadSlice { start, end, len });
    }
    let count = end - start + 1;
    let mut out: Vec<String> = Vec::new();
    let mut k: usize = 0;
    while k < count
        invariant
            start <= end < len == log@.len(),
            count == end - start + 1,
            k <= count,
            out@.len() == k,
            forall|j: int| 0 <= j < k ==> out@[j]@ == log@[log@.len() - 1 - start - j]@,
        decreases count - k,
    {
        out.push(log[len - 1 - start - k].clone());
        k = k + 1;
    }
    Ok(out)
}

} // verus!
