//! Completion figures shown while an archive downloads.
use vstd::prelude::*;

verus! {

/// `position * 100`, saturated at `u64::MAX`.
pub open spec fn scaled_position(position: u64) -> int {
    if position * 100 > u64::MAX {
        u64::MAX as int
    } else {
        position * 100
    }
}

/// Whole percent of a transfer: rounded down, never above 100, and 0 when the
/// total is unknown or zero.
pub open spec fn percent_of(position: u64, total: Option<u64>) -> int {
    match total {
        Some(t) if t > 0 => {
            let p = scaled_position(position) / (t as int);
            if p > 100 {
                100
            } else {
                p
            }
        },
        _ => 0,
    }
}

/// The whole percentage of `position` out of `total`.
pub fn whole_percent(position: u64, total: Option<u64>) -> (r: u64)
    ensures
        r == percent_of(position, total),
        r <= 100,
        total matches Some(t) && position < t ==> r < 100,
{
    match total {
        Some(t) if t > 0 => {
            let scaled: u64 = if position > u64::MAX / 100 {
                u64::MAX
            } else {
                position * 100
            };
            let p = scaled / t;
            proof {
                if position < t {
                    assert(scaled < 100 * t) by (nonlinear_arith)
                        requires
                            position < t,
                            scaled == position * 100 || (scaled == u64::MAX && position * 100 > u64::MAX),
                            scaled <= u64::MAX,
                    ;
                    assert(p < 100) by (nonlinear_arith)
                        requires
                            scaled < 100 * t,
                            t > 0,
                            p == scaled / t,
                    ;
                }
            }
            if p > 100 {
                100
            } else {
                p
            }
        },
        _ => 0,
    }
}

} // verus!
