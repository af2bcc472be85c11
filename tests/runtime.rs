use std::sync::atomic::Ordering;
use std::sync::Arc;

use autosam::midi::{Channel, Note, NoteState};
use autosam::runtime::{
    dispatch_step, next_note_word, DispatchAction, note_word, plan_frame, word_note, writer_step, AudioProcessor, FramePlan,
    MaybeSample, RunState, WriterAction, WriterPhase,
};
use autosam::sequencer::{AdvanceResult, Config, Sequencer, Span};

#[test]
fn note_word_packs_bytes() {
    assert_eq!(note_word(1, 60, 127, 0), 0x013C_7F00);
    assert_eq!(word_note(0x013C_7F05), (60, 127, 5));
}

#[test]
fn round_robin_counts_repeats() {
    let w0 = note_word(1, 48, 127, 0);
    // the first note after start begins at take 0, even when it matches
    let w1 = next_note_word(w0, 48, 127);
    assert_eq!(word_note(w1), (48, 127, 0));
    let w2 = next_note_word(w1, 48, 127);
    assert_eq!(word_note(w2), (48, 127, 1));
    let w3 = next_note_word(w2, 48, 127);
    assert_eq!(word_note(w3), (48, 127, 2));
    let w4 = next_note_word(w3, 48, 100);
    assert_eq!(word_note(w4), (48, 100, 0));
    let w5 = next_note_word(w4, 50, 100);
    assert_eq!(word_note(w5), (50, 100, 0));
    assert_eq!(next_note_word(note_word(0, 1, 2, 255), 1, 2), note_word(0, 1, 2, 0));
}

#[test]
fn run_state_shared_values() {
    let state = RunState::new(36);
    assert_eq!(state.note(Ordering::Acquire), (36, 127, 0));
    assert!(!state.done());
    state.new_note(&Note { pitch: 36, velocity: 127, state: NoteState::On });
    state.new_note(&Note { pitch: 36, velocity: 127, state: NoteState::On });
    assert_eq!(state.note(Ordering::Acquire), (36, 127, 1));
    state.record_latency(7);
    state.record_latency(3);
    assert_eq!(state.latency(), 7);
    state.mark_done();
    assert!(state.done());
}

fn on(p: u8) -> Note {
    Note { pitch: p, velocity: 127, state: NoteState::On }
}

#[test]
fn frame_plans() {
    let ev = AdvanceResult::Event { position: 0, note: on(60) };
    assert_eq!(
        plan_frame(None, ev, true, true),
        FramePlan { timer: Some(0), note: Some(on(60)), boundary: true, done: false, latency: None, emit: false }
    );
    assert_eq!(
        plan_frame(Some(4), AdvanceResult::NoEventsInFrame, false, true),
        FramePlan { timer: None, note: None, boundary: false, done: false, latency: Some(5), emit: true }
    );
    assert_eq!(
        plan_frame(Some(4), AdvanceResult::NoEventsInFrame, true, false),
        FramePlan { timer: Some(5), note: None, boundary: false, done: false, latency: None, emit: true }
    );
    assert_eq!(
        plan_frame(None, AdvanceResult::SequenceComplete, true, true),
        FramePlan { timer: None, note: None, boundary: false, done: true, latency: None, emit: true }
    );
    assert_eq!(plan_frame(Some(usize::MAX), AdvanceResult::NoEventsInFrame, true, false).timer, Some(usize::MAX));
}

#[test]
fn writer_steps() {
    assert_eq!(writer_step(WriterPhase::Waiting, None, false), (WriterPhase::Waiting, WriterAction::Sleep));
    assert_eq!(writer_step(WriterPhase::Waiting, None, true), (WriterPhase::Finished, WriterAction::Finish));
    assert_eq!(writer_step(WriterPhase::Waiting, Some(MaybeSample::Sample(3)), false), (WriterPhase::Waiting, WriterAction::Skip));
    assert_eq!(writer_step(WriterPhase::Waiting, Some(MaybeSample::Break), false), (WriterPhase::Recording, WriterAction::Open));
    assert_eq!(writer_step(WriterPhase::Recording, Some(MaybeSample::Break), true), (WriterPhase::Recording, WriterAction::Rotate));
    assert_eq!(writer_step(WriterPhase::Recording, Some(MaybeSample::Sample(-2)), true), (WriterPhase::Recording, WriterAction::Write(-2)));
    assert_eq!(writer_step(WriterPhase::Recording, None, true), (WriterPhase::Finished, WriterAction::Finish));
    assert_eq!(writer_step(WriterPhase::Discarding, Some(MaybeSample::Sample(1)), false), (WriterPhase::Discarding, WriterAction::Skip));
    assert_eq!(writer_step(WriterPhase::Discarding, None, false), (WriterPhase::Discarding, WriterAction::Sleep));
}

#[test]
fn samples_land_after_their_break() {
    // two notes held 2 samples with 1-sample gaps, mono: a note-on, 2 held frames, the
    // note-off frame and a gap frame before the next note-on
    let cfg = Config {
        notes: 60..=61,
        length: Span::from_millis(2),
        gap: Span::from_millis(1),
        ..Default::default()
    };
    let seq = Sequencer::new(cfg, 1000).unwrap();
    let (note_tx, mut note_rx) = rtrb::RingBuffer::<Note>::new(16);
    let (audio_tx, mut audio_rx) = rtrb::RingBuffer::<MaybeSample<i16>>::new(64);
    let state = Arc::new(RunState::new(60));
    let mut p = AudioProcessor {
        seq,
        sender: note_tx,
        writer: audio_tx,
        channels: 1,
        state: state.clone(),
        latency_timer: None,
        trim_start: false,
    };
    let input: Vec<i16> = (1..=12).collect();
    p.write_input_data(&input);

    let mut items = Vec::new();
    while let Ok(x) = audio_rx.pop() {
        items.push(x);
    }
    assert_eq!(
        items,
        vec![
            MaybeSample::Break, MaybeSample::Sample(1), MaybeSample::Sample(2), MaybeSample::Sample(3), MaybeSample::Sample(4), MaybeSample::Sample(5),
            MaybeSample::Break, MaybeSample::Sample(6), MaybeSample::Sample(7), MaybeSample::Sample(8), MaybeSample::Sample(9), MaybeSample::Sample(10),
            MaybeSample::Sample(11), MaybeSample::Sample(12)
        ]
    );
    let mut notes = Vec::new();
    while let Ok(n) = note_rx.pop() {
        notes.push(n);
    }
    assert_eq!(notes.len(), 4);
    assert_eq!(notes[0], on(60));
    assert_eq!(notes[2], on(61));
    assert!(state.done());
    assert_eq!(state.note(Ordering::Acquire), (61, 127, 0));
    assert_eq!(state.latency(), 0);
}

#[test]
fn trimmed_silence_and_latency() {
    let cfg = Config {
        notes: 60..=60,
        length: Span::from_millis(3),
        gap: Span::from_millis(1),
        ..Default::default()
    };
    let seq = Sequencer::new(cfg, 1000).unwrap();
    let (note_tx, _note_rx) = rtrb::RingBuffer::<Note>::new(16);
    let (audio_tx, mut audio_rx) = rtrb::RingBuffer::<MaybeSample<i16>>::new(64);
    let state = Arc::new(RunState::new(60));
    let mut p = AudioProcessor {
        seq,
        sender: note_tx,
        writer: audio_tx,
        channels: 2,
        state: state.clone(),
        latency_timer: None,
        trim_start: true,
    };
    // stereo: two silent frames, then sound, then silence again
    p.write_input_data(&[0, 0, 0, 0, 5, 0, 0, 0]);
    let mut items = Vec::new();
    while let Ok(x) = audio_rx.pop() {
        items.push(x);
    }
    assert_eq!(items, vec![MaybeSample::Break, MaybeSample::Sample(5), MaybeSample::Sample(0), MaybeSample::Sample(0), MaybeSample::Sample(0)]);
    assert_eq!(state.latency(), 2);
}

#[test]
fn full_queue_drops_instead_of_blocking() {
    let cfg = Config { notes: 60..=60, ..Default::default() };
    let seq = Sequencer::new(cfg, 1000).unwrap();
    let (note_tx, _note_rx) = rtrb::RingBuffer::<Note>::new(1);
    let (audio_tx, mut audio_rx) = rtrb::RingBuffer::<MaybeSample<i16>>::new(3);
    let mut p = AudioProcessor {
        seq,
        sender: note_tx,
        writer: audio_tx,
        channels: 1,
        state: Arc::new(RunState::new(60)),
        latency_timer: None,
        trim_start: false,
    };
    p.write_input_data(&[1, 2, 3, 4, 5, 6]);
    let mut items = Vec::new();
    while let Ok(x) = audio_rx.pop() {
        items.push(x);
    }
    assert_eq!(items, vec![MaybeSample::Break, MaybeSample::Sample(1), MaybeSample::Sample(2)]);
}

#[test]
fn dispatch_steps() {
    let ch = Channel::new(2).unwrap();
    assert_eq!(dispatch_step(false, false, false, None, false, ch), DispatchAction::Poll);
    assert_eq!(dispatch_step(true, false, false, None, false, ch), DispatchAction::Stop);
    assert_eq!(dispatch_step(false, true, false, None, false, ch), DispatchAction::Stop);
    assert_eq!(
        dispatch_step(false, true, true, Some(on(64)), false, ch),
        DispatchAction::Send(0x92, 64, 127)
    );
    assert_eq!(dispatch_step(false, false, true, None, false, ch), DispatchAction::Sleep);
    assert_eq!(dispatch_step(false, false, true, None, true, ch), DispatchAction::Poll);
    assert_eq!(dispatch_step(false, true, true, None, true, ch), DispatchAction::Stop);
}
