//! Retry policy of report submission.
use vstd::prelude::*;

verus! {

/// How many times a failed submission is retried.
pub const MAX_REPORT_RETRIES: u32 = 3;

/// The wait before retry number `attempt + 1`: 500 ms doubled per attempt;
/// none once `attempt` reaches the retry budget.
pub open spec fn retry_delay_of(attempt: u32) -> Option<u64> {
    if attempt < MAX_REPORT_RETRIES {
        Some((500 * vstd::arithmetic::power2::pow2(attempt as nat)) as u64)
    } else {
        None
    }
}

/// The wait before retrying a failed submission, if any retry is left.
pub fn retry_delay_ms(attempt: u32) -> (r: Option<u64>)
    ensures
        r == retry_delay_of(attempt),
{
    if attempt >= MAX_REPORT_RETRIES {
        return None;
    }
    let mut d: u64 = 500;
    let mut i: u32 = 0;
    proof {
        vstd::arithmetic::power2::lemma2_to64();
    }
    while i < attempt
        invariant
            0 <= i <= attempt < 3,
            d == 500 * vstd::arithmetic::power2::pow2(i as nat),
        decreases attempt - i,
    {
        proof {
            vstd::arithmetic::power2::lemma2_to64();
        }
        d = d * 2;
        i = i + 1;
    }
    Some(d)
}

} // verus!
