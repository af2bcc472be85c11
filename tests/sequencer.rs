use autosam::midi::{Note, NoteState};
use autosam::sequencer::Span;
use autosam::{AdvanceResult, Config, Sequencer, SequencerError};

#[test]
fn one_note_sequence() {
    let cfg = Config {
        notes: 60..=60,
        length: Span::from_millis(100),
        gap: Span::from_millis(100),
        ..Default::default()
    };

    let mut seq = Sequencer::new(cfg, 1000).unwrap();

    assert_eq!(
        seq.advance(1),
        AdvanceResult::Event {
            position: 0,
            note: Note {
                pitch: 60,
                velocity: 127,
                state: NoteState::On
            }
        }
    );

    assert_eq!(
        seq.advance(101),
        AdvanceResult::Event {
            position: 100,
            note: Note {
                pitch: 60,
                velocity: 127,
                state: NoteState::Off
            }
        }
    );

    assert_eq!(seq.advance(101), AdvanceResult::SequenceComplete);
}

#[test]
fn octave_sequence() {
    let cfg = Config {
        notes: 0..=120,
        step: 12,
        length: Span::from_millis(100),
        gap: Span::from_millis(100),
        ..Default::default()
    };

    let mut seq = Sequencer::new(cfg, 1000).unwrap();

    for octave in 0..11 {
        assert_eq!(
            seq.advance(1),
            AdvanceResult::Event {
                position: 0,
                note: Note {
                    pitch: octave * 12,
                    velocity: 127,
                    state: NoteState::On
                }
            }
        );

        assert_eq!(
            seq.advance(101),
            AdvanceResult::Event {
                position: 100,
                note: Note {
                    pitch: octave * 12,
                    velocity: 127,
                    state: NoteState::Off
                }
            }
        );

        assert_eq!(seq.advance(100), AdvanceResult::NoEventsInFrame);
    }

    assert_eq!(seq.advance(101), AdvanceResult::SequenceComplete);
}

#[test]
fn velocity_layer_sequence() {
    let pitch = 60;

    let cfg = Config {
        notes: pitch..=pitch,
        velocity_levels: 5,
        length: Span::from_millis(100),
        gap: Span::from_millis(100),
        ..Default::default()
    };

    let mut seq = Sequencer::new(cfg, 1000).unwrap();

    let mut current_velocity = 128;
    for _layer in 0..5 {
        let AdvanceResult::Event {
            position: 0,
            note:
                Note {
                    pitch: actual_pitch,
                    velocity,
                    state: NoteState::On,
                },
        } = seq.advance(1)
        else {
            panic!("Expected a NoteOn event at position 0, found none.");
        };

        assert_eq!(actual_pitch, pitch);
        assert!(velocity < current_velocity);

        current_velocity = velocity;

        assert_eq!(
            seq.advance(101),
            AdvanceResult::Event {
                position: 100,
                note: Note {
                    pitch,
                    velocity: current_velocity,
                    state: NoteState::Off
                }
            }
        );

        assert_eq!(seq.advance(100), AdvanceResult::NoEventsInFrame);
    }

    assert_eq!(seq.advance(101), AdvanceResult::SequenceComplete);
}

#[test]
fn round_robin_sequence() {
    let pitch = 48;

    let cfg = Config {
        notes: pitch..=pitch,
        round_robins: 4,
        length: Span::from_millis(100),
        gap: Span::from_millis(100),
        ..Default::default()
    };

    let mut seq = Sequencer::new(cfg, 1000).unwrap();

    for _round in 0..4 {
        assert_eq!(
            seq.advance(1),
            AdvanceResult::Event {
                position: 0,
                note: Note {
                    pitch,
                    velocity: 127,
                    state: NoteState::On
                }
            }
        );

        assert_eq!(
            seq.advance(101),
            AdvanceResult::Event {
                position: 100,
                note: Note {
                    pitch,
                    velocity: 127,
                    state: NoteState::Off
                }
            }
        );

        assert_eq!(seq.advance(100), AdvanceResult::NoEventsInFrame);
    }

    assert_eq!(seq.advance(101), AdvanceResult::SequenceComplete);
}

fn all_events(cfg: Config, rate: u32) -> Vec<(usize, Note)> {
    let mut it = Sequencer::new(cfg, rate).unwrap().into_iter();
    let mut out = Vec::new();
    while let Some(e) = it.next() {
        out.push(e);
    }
    out
}

#[test]
fn note_on_count_is_notes_times_layers_times_takes() {
    let cfg = Config {
        notes: 60..=64,
        step: 2,
        velocity_levels: 2,
        round_robins: 3,
        length: Span::from_millis(10),
        gap: Span::from_millis(5),
        ..Default::default()
    };
    let events = all_events(cfg, 1000);
    let ons = events.iter().filter(|(_, n)| n.state == NoteState::On).count();
    let offs = events.iter().filter(|(_, n)| n.state == NoteState::Off).count();
    assert_eq!(ons, 3 * 2 * 3);
    assert_eq!(offs, ons);
    // velocity step is 64: layers at 127 and 63
    assert_eq!(events[0].1, Note { pitch: 60, velocity: 127, state: NoteState::On });
    assert_eq!(events[6].1, Note { pitch: 60, velocity: 63, state: NoteState::On });
    assert_eq!(events[12].1, Note { pitch: 62, velocity: 127, state: NoteState::On });
    // positions: on at 0, off at 10, next on at 15
    assert_eq!(events[0].0, 0);
    assert_eq!(events[1].0, 10);
    assert_eq!(events[2].0, 15);
}

#[test]
fn empty_range_completes_at_once() {
    let cfg = Config { notes: 70..=60, ..Default::default() };
    let mut seq = Sequencer::new(cfg, 48_000).unwrap();
    assert_eq!(seq.advance(1), AdvanceResult::SequenceComplete);
    assert_eq!(seq.advance(1), AdvanceResult::SequenceComplete);
}

#[test]
fn step_past_the_top_ends_the_sweep() {
    let cfg = Config {
        notes: 120..=127,
        step: 200,
        length: Span::from_millis(1),
        gap: Span::from_millis(1),
        ..Default::default()
    };
    let events = all_events(cfg, 1000);
    assert_eq!(events.len(), 2);
    assert_eq!(events[0].1.pitch, 120);
}

#[test]
fn too_many_velocity_levels_rejected() {
    let cfg = Config { velocity_levels: 129, ..Default::default() };
    assert_eq!(
        Sequencer::new(cfg, 48_000).unwrap_err(),
        SequencerError::VelocityLevels(129)
    );
    let cfg = Config { velocity_levels: 128, ..Default::default() };
    assert!(Sequencer::new(cfg, 48_000).is_ok());
}

#[test]
fn bad_note_range_rejected() {
    let cfg = Config { notes: 128..=130, ..Default::default() };
    match Sequencer::new(cfg, 48_000) {
        Err(SequencerError::StartNote(e)) => {
            assert_eq!(e.value(), 128);
            assert_eq!(e.limit(), 127);
        }
        other => panic!("unexpected {other:?}"),
    }
    let cfg = Config { notes: 0..=200, ..Default::default() };
    match Sequencer::new(cfg, 48_000) {
        Err(SequencerError::EndNote(e)) => assert_eq!(e.value(), 200),
        other => panic!("unexpected {other:?}"),
    }
}

#[test]
fn durations_truncate_to_whole_samples() {
    // 1.5 ms at 1000 Hz is one whole sample
    let cfg = Config {
        notes: 60..=60,
        length: Span::from_nanos(1_500_000),
        gap: Span::from_nanos(2_999_999),
        ..Default::default()
    };
    let events = all_events(cfg, 1000);
    assert_eq!(events.len(), 2);
    assert_eq!(events[1].0, 1);
    let cfg = Config {
        notes: 60..=61,
        length: Span::from_nanos(1_500_000),
        gap: Span::from_nanos(2_999_999),
        ..Default::default()
    };
    let events = all_events(cfg, 1000);
    assert_eq!(events[2].0, 3);
}

#[test]
fn default_config_values() {
    let cfg = Config::default();
    assert_eq!(cfg.notes, 0..=127);
    assert_eq!(cfg.step, 1);
    assert_eq!(cfg.velocity_levels, 1);
    assert_eq!(cfg.round_robins, 1);
    assert_eq!(cfg.length, Span::from_millis(500));
    assert_eq!(cfg.gap.nanos, 500_000_000);
}

#[test]
fn span_from_millis_saturates() {
    assert_eq!(Span::from_millis(3).nanos, 3_000_000);
    assert_eq!(Span::from_millis(u64::MAX).nanos, u64::MAX);
}

#[test]
fn sequencer_error_messages() {
    let cfg = Config { notes: 130..=1, ..Default::default() };
    assert_eq!(
        Sequencer::new(cfg, 1).unwrap_err().message(),
        "Invalid start of note range: Value 130 is larger than maximum 127."
    );
    let cfg = Config { notes: 1..=140, ..Default::default() };
    assert_eq!(
        Sequencer::new(cfg, 1).unwrap_err().message(),
        "Invalid end of note range: Value 140 is larger than maximum 127."
    );
    assert_eq!(
        SequencerError::VelocityLevels(200).message(),
        "Maximum 128 possible velocity layers, specified 200"
    );
}

#[test]
fn timing_in_samples() {
    let cfg = Config {
        length: Span::from_millis(250),
        gap: Span::from_millis(1),
        ..Default::default()
    };
    assert_eq!(Sequencer::new(cfg, 48_000).unwrap().timing(), (12_000, 48));
    let cfg = Config { length: Span::from_nanos(u64::MAX), ..Default::default() };
    let (length, _) = Sequencer::new(cfg, u32::MAX).unwrap().timing();
    assert!(length as u128 == (u64::MAX as u128 * u32::MAX as u128 / 1_000_000_000).min(usize::MAX as u128));
}
