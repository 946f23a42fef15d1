//! Integer arithmetic for typewriter centering: each animation frame closes
//! part of the remaining distance (in visual lines) to the centred position.

use vstd::prelude::*;

verus! {

/// One eased step toward zero: about half the remaining distance, at least
/// one line and at most `max(max_step, 1)` lines, with the sign of `delta`.
pub open spec fn eased(delta: int, max_step: int) -> int {
    if delta == 0 {
        0
    } else {
        let cap = if max_step < 1 { 1 } else { max_step };
        let half = (if delta < 0 { -delta } else { delta } + 1) / 2;
        let magnitude = if half < 1 { 1 } else if half > cap { cap } else { half };
        if delta < 0 { -magnitude } else { magnitude }
    }
}

/// One eased step, in visual lines, that closes part of `delta` toward zero.
///
/// Ease-out: each call covers about half the remaining distance, capped at
/// `max_step` lines and never below one, so centering converges in a few
/// frames and always lands exactly on target. Returns 0 once the gap is
/// closed.
pub fn ease_step(delta: i32, max_step: i32) -> (r: i32)
    requires
        -i32::MAX < delta < i32::MAX,
    ensures
        r == eased(delta as int, max_step as int),
        // never overshoots, never stalls
        delta == 0 ==> r == 0,
        delta > 0 ==> 0 < r <= delta,
        delta < 0 ==> delta <= r < 0,
{
    if delta == 0 {
        return 0;
    }
    let max_step = if max_step < 1 { 1 } else { max_step };
    let abs = if delta < 0 { -delta } else { delta };
    let magnitude_raw = (abs + 1) / 2;
    let magnitude = if magnitude_raw < 1 {
        1
    } else if magnitude_raw > max_step {
        max_step
    } else {
        magnitude_raw
    };
    if delta < 0 {
        -magnitude
    } else {
        magnitude
    }
}

/// Repeated easing converges: every step moves strictly toward the target
/// without passing it, so the remaining distance shrinks to exactly zero.
pub proof fn law_ease_never_overshoots(delta: int, max_step: int)
    ensures
        delta > 0 ==> 0 < eased(delta, max_step) <= delta,
        delta < 0 ==> delta <= eased(delta, max_step) < 0,
        delta == 0 ==> eased(delta, max_step) == 0,
        max_step >= 1 ==> -max_step <= eased(delta, max_step) <= max_step,
{
}

} // verus!
