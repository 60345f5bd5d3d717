use fretboard::onset::{OnsetTrigger, REFRACTORY_FRAMES};

#[test]
fn onset_trigger_starts_armed_and_ready() {
    let g = OnsetTrigger::new();
    assert!(g.armed);
    assert_eq!(g.frames_since, REFRACTORY_FRAMES);
}

#[test]
fn onset_trigger_fires_once_on_a_held_note() {
    let mut g = OnsetTrigger::new();
    // Quiet, then an attack that stays above the threshold with no dip.
    assert!(!g.step(false, false));
    assert!(g.step(true, false));
    for _ in 0..20 {
        assert!(!g.step(true, false));
    }
    assert!(!g.armed);
}

#[test]
fn onset_trigger_fires_again_after_a_dip() {
    let mut g = OnsetTrigger::new();
    assert!(g.step(true, false));
    assert!(!g.step(true, false));
    // The trough between two bow strokes re-arms the trigger.
    assert!(!g.step(false, true));
    assert!(g.armed);
    assert!(g.step(true, false));
}

#[test]
fn onset_trigger_respects_the_refractory_period() {
    let mut g = OnsetTrigger::new();
    // An onset on a dipping frame leaves the trigger armed, but the next frame is too soon.
    assert!(g.step(true, true));
    assert!(g.armed);
    assert_eq!(g.frames_since, 0);
    assert!(!g.step(true, false));
    assert_eq!(g.frames_since, 1);
    assert!(g.step(true, false));
}

#[test]
fn onset_trigger_counts_frames_since_the_onset() {
    let mut g = OnsetTrigger::new();
    assert!(g.step(true, false));
    g.step(false, false);
    g.step(false, false);
    g.step(false, false);
    assert_eq!(g.frames_since, 3);
    assert!(!g.armed);
}
