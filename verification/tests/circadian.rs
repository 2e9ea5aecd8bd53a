use cuda_atp_market::circadian::{normalize_period, state_for_eighth, CircadianState};

/// The state of a phase, located as the rhythm locates it before
/// classifying: the phase is wrapped into `[0, 1)` and scaled by 8.
fn state_at(phase: f64) -> CircadianState {
    let p = phase.rem_euclid(1.0);
    if p.is_nan() {
        return state_for_eighth(None, false);
    }
    let scaled = p * 8.0;
    let whole = scaled.floor();
    state_for_eighth(Some(whole as u64), scaled == whole)
}

#[test]
fn circadian_state() {
    assert_eq!(state_at(0.0), CircadianState::Resting);
    assert_eq!(state_at(0.25), CircadianState::Awake);
    assert_eq!(state_at(0.5), CircadianState::Active);
    assert_eq!(state_at(0.7), CircadianState::Tiring);
}

#[test]
fn state_table_over_the_eighths() {
    let inside = [
        CircadianState::Resting,
        CircadianState::Awake,
        CircadianState::Awake,
        CircadianState::Active,
        CircadianState::Active,
        CircadianState::Tiring,
        CircadianState::Resting,
        CircadianState::Resting,
    ];
    for (e, want) in inside.iter().enumerate() {
        assert_eq!(state_for_eighth(Some(e as u64), false), *want);
    }
    let at_start = [
        CircadianState::Resting,
        CircadianState::Awake,
        CircadianState::Awake,
        CircadianState::Active,
        CircadianState::Active,
        CircadianState::Tiring,
        CircadianState::Tiring,
        CircadianState::Resting,
    ];
    for (e, want) in at_start.iter().enumerate() {
        assert_eq!(state_for_eighth(Some(e as u64), true), *want);
    }
}

#[test]
fn state_bounds() {
    assert_eq!(state_at(0.124999), CircadianState::Resting);
    assert_eq!(state_at(0.125), CircadianState::Awake);
    assert_eq!(state_at(0.375), CircadianState::Active);
    assert_eq!(state_at(0.625), CircadianState::Tiring);
    assert_eq!(state_at(0.75), CircadianState::Tiring);
    assert_eq!(state_at(0.7499999), CircadianState::Tiring);
    assert_eq!(state_at(0.7500001), CircadianState::Resting);
    assert_eq!(state_at(0.8), CircadianState::Resting);
    assert_eq!(state_at(0.874999), CircadianState::Resting);
    assert_eq!(state_at(0.875), CircadianState::Resting);
    assert_eq!(state_at(0.999), CircadianState::Resting);
}

#[test]
fn state_of_a_wrapped_phase() {
    assert_eq!(state_at(1.5), CircadianState::Active);
    assert_eq!(state_at(-0.25), CircadianState::Tiring);
    assert_eq!(state_at(-0.1), CircadianState::Resting);
}

#[test]
fn state_past_the_last_eighth_is_night() {
    assert_eq!(state_for_eighth(Some(8), true), CircadianState::Resting);
    assert_eq!(state_for_eighth(Some(8), false), CircadianState::Resting);
    assert_eq!(state_for_eighth(Some(u64::MAX), false), CircadianState::Resting);
}

#[test]
fn state_of_a_phase_that_is_not_a_number() {
    assert_eq!(state_at(f64::NAN), CircadianState::Tiring);
    assert_eq!(state_for_eighth(None, false), CircadianState::Tiring);
    assert_eq!(state_for_eighth(None, true), CircadianState::Tiring);
}

#[test]
fn zero_period_becomes_one_tick() {
    assert_eq!(normalize_period(0), 1);
    assert_eq!(normalize_period(1), 1);
    assert_eq!(normalize_period(1000), 1000);
    assert_eq!(normalize_period(u64::MAX), u64::MAX);
}

#[test]
fn labelled_phases_have_their_states() {
    assert_eq!(state_at(0.0), CircadianState::Resting);
    assert_eq!(state_at(0.25), CircadianState::Awake);
    assert_eq!(state_at(0.5), CircadianState::Active);
    assert_eq!(state_at(0.75), CircadianState::Tiring);
}
