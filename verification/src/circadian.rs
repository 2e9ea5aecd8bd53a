//! Circadian state classification.
//!
//! The cycle is cut into eighths of a phase in `[0, 1)`: eighth `e` holds
//! the phases `p` with `e <= 8 * p < e + 1`, and a phase is at the start of
//! its eighth when `8 * p` is a whole number.
//!
//! Phase mapping: 0.00 midnight (Resting), 0.25 dawn (Awake), 0.50 noon
//! (Active), 0.75 dusk (Tiring). Past dusk the agent rests until dawn.

use vstd::prelude::*;

verus! {

/// Circadian state of an agent.
#[derive(Debug, Clone, Copy, PartialEq, Eq, Structural)]
pub enum CircadianState {
    /// Night: phase in `(0.75, 1.0)` or `[0.0, 0.125)`.
    Resting,
    /// Dawn ramp: phase in `[0.125, 0.375)`.
    Awake,
    /// Peak metabolism: phase in `[0.375, 0.625)`.
    Active,
    /// Wind-down to dusk: phase in `[0.625, 0.75]`.
    Tiring,
}

/// The state at a phase in eighth `e` of the cycle, `at_start` telling
/// whether the phase is the first point of that eighth.
pub open spec fn state_of_eighth(e: nat, at_start: bool) -> CircadianState {
    if e < 1 || e >= 7 || (e == 6 && !at_start) {
        CircadianState::Resting
    } else if e < 3 {
        CircadianState::Awake
    } else if e < 5 {
        CircadianState::Active
    } else {
        CircadianState::Tiring
    }
}

/// The period of a rhythm: zero ticks is taken as one.
pub open spec fn spec_period(period: u64) -> u64 {
    if period == 0 { 1 } else { period }
}

/// Normalises a period in ticks: a zero period becomes one tick, so that a
/// phase advance never divides by zero.
pub fn normalize_period(period: u64) -> (p: u64)
    ensures
        p == spec_period(period),
        p >= 1,
        period != 0 ==> p == period,
        period == 0 ==> p == 1,
{
    if period == 0 { 1 } else { period }
}

/// A non-zero period is kept as it is; only a zero period becomes one tick.
pub proof fn lemma_period_kept_unless_zero(period: u64)
    ensures
        period != 0 ==> spec_period(period) == period,
        period == 0 ==> spec_period(period) == 1,
{
}

/// The state table by phase: night up to dawn's ramp and after dusk, the
/// dawn ramp over the second and third eighths, peak metabolism over the
/// fourth and fifth, and the wind-down from the sixth eighth up to and
/// including dusk at the start of the seventh.
pub proof fn lemma_state_table(e: nat, at_start: bool)
    ensures
        (state_of_eighth(e, at_start) == CircadianState::Resting)
            <==> (e == 0 || e >= 7 || (e == 6 && !at_start)),
        (state_of_eighth(e, at_start) == CircadianState::Awake) <==> (e == 1 || e == 2),
        (state_of_eighth(e, at_start) == CircadianState::Active) <==> (e == 3 || e == 4),
        (state_of_eighth(e, at_start) == CircadianState::Tiring) <==> (e == 5 || (e == 6 && at_start)),
{
}

/// The state of an agent whose phase lies in eighth `eighth` of the cycle,
/// or, for `None`, whose phase is not a number. `at_start` tells whether the
/// phase is exactly the start of its eighth (`8 * phase` is a whole number).
///
/// Eighths run from midnight: `Some(0)` is `[0, 0.125)`, `Some(7)` is
/// `[0.875, 1.0)`. Dusk, 0.75, is the start of eighth 6; the rest of that
/// eighth is night. An eighth of 8 or more (a phase that rounded up to a
/// whole cycle) is past the end of the cycle and is night. A phase that is
/// not a number fails every bound comparison of the state table and so comes
/// out as `Tiring`.
pub fn state_for_eighth(eighth: Option<u64>, at_start: bool) -> (s: CircadianState)
    ensures
        eighth matches Some(e) ==> s == state_of_eighth(e as nat, at_start),
        eighth matches Some(e) ==> ((s == CircadianState::Resting) <==> (e == 0 || e >= 7 || (e == 6 && !at_start))),
        eighth matches Some(e) ==> ((s == CircadianState::Awake) <==> (e == 1 || e == 2)),
        eighth matches Some(e) ==> ((s == CircadianState::Active) <==> (e == 3 || e == 4)),
        eighth matches Some(e) ==> ((s == CircadianState::Tiring) <==> (e == 5 || (e == 6 && at_start))),
        eighth is None ==> s == CircadianState::Tiring,
{
    match eighth {
        None => CircadianState::Tiring,
        Some(e) => {
            if e < 1 || e >= 7 || (e == 6 && !at_start) {
                CircadianState::Resting
            } else if e < 3 {
                CircadianState::Awake
            } else if e < 5 {
                CircadianState::Active
            } else {
                CircadianState::Tiring
            }
        },
    }
}

} // verus!
