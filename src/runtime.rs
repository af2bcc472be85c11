use vstd::prelude::*;

use core::sync::atomic::{AtomicBool, AtomicU32, AtomicUsize, Ordering};
use std::sync::Arc;

use crate::midi::{status_byte, Channel, Note, NoteState};
use crate::sequencer::{advance_model, AdvanceResult, Sequencer, SequencerView};

verus! {

/// The note identity packed in one word: a flag that is 1 before the first note,
/// then pitch, velocity and take number, one byte each, most significant first.
pub open spec fn pack_word(first: u8, pitch: u8, velocity: u8, round_robin: u8) -> u32 {
    ((first as u32) << 24u32) | ((pitch as u32) << 16u32) | ((velocity as u32) << 8u32) | (
    round_robin as u32)
}

pub open spec fn word_first(w: u32) -> u8 {
    ((w >> 24u32) & 0xffu32) as u8
}

pub open spec fn word_pitch(w: u32) -> u8 {
    ((w >> 16u32) & 0xffu32) as u8
}

pub open spec fn word_velocity(w: u32) -> u8 {
    ((w >> 8u32) & 0xffu32) as u8
}

pub open spec fn word_round_robin(w: u32) -> u8 {
    (w & 0xffu32) as u8
}

/// The word written when a note-on at `pitch` and `velocity` follows the word `old`:
/// the take number goes up by one (wrapping) when the same pitch and velocity come
/// again after the first note, and is 0 otherwise.
pub open spec fn next_word(old: u32, pitch: u8, velocity: u8) -> u32 {
    let again = word_first(old) == 0 && word_pitch(old) == pitch && word_velocity(old)
        == velocity;
    pack_word(
        0,
        pitch,
        velocity,
        if again {
            ((word_round_robin(old) + 1) % 256) as u8
        } else {
            0
        },
    )
}

/// Each byte of a packed word reads back as it was packed.
pub proof fn lemma_word_fields(first: u8, pitch: u8, velocity: u8, round_robin: u8)
    ensures
        word_first(pack_word(first, pitch, velocity, round_robin)) == first,
        word_pitch(pack_word(first, pitch, velocity, round_robin)) == pitch,
        word_velocity(pack_word(first, pitch, velocity, round_robin)) == velocity,
        word_round_robin(pack_word(first, pitch, velocity, round_robin)) == round_robin,
{
    let f = first as u32;
    let p = pitch as u32;
    let v = velocity as u32;
    let r = round_robin as u32;
    assert(f <= 0xff && p <= 0xff && v <= 0xff && r <= 0xff ==> {
        let w = (f << 24u32) | (p << 16u32) | (v << 8u32) | r;
        &&& ((w >> 24u32) & 0xffu32) == f
        &&& ((w >> 16u32) & 0xffu32) == p
        &&& ((w >> 8u32) & 0xffu32) == v
        &&& (w & 0xffu32) == r
    }) by (bit_vector);
}

/// Packs a note identity into one word.
pub fn note_word(first: u8, pitch: u8, velocity: u8, round_robin: u8) -> (r: u32)
    ensures
        r == pack_word(first, pitch, velocity, round_robin),
{
    ((first as u32) << 24u32) | ((pitch as u32) << 16u32) | ((velocity as u32) << 8u32) | (
    round_robin as u32)
}

/// Pitch, velocity and take number of a packed word.
pub fn word_note(w: u32) -> (r: (u8, u8, u8))
    ensures
        r == (word_pitch(w), word_velocity(w), word_round_robin(w)),
{
    (((w >> 16u32) & 0xffu32) as u8, ((w >> 8u32) & 0xffu32) as u8, (w & 0xffu32) as u8)
}

/// The word that follows `old` when a note-on at `pitch` and `velocity` is announced.
pub fn next_note_word(old: u32, pitch: u8, velocity: u8) -> (r: u32)
    ensures
        r == next_word(old, pitch, velocity),
{
    let first = ((old >> 24u32) & 0xffu32) as u8;
    let (old_pitch, old_velocity, old_robin) = word_note(old);
    let round_robin = if first == 0 && old_pitch == pitch && old_velocity == velocity {
        old_robin.wrapping_add(1)
    } else {
        0
    };
    note_word(0, pitch, velocity, round_robin)
}

/// A take number rises by one for each repeat of the same pitch and velocity, and
/// starts again at 0 when either changes.
pub proof fn lemma_round_robin_continues(old: u32, pitch: u8, velocity: u8)
    ensures
        word_pitch(next_word(old, pitch, velocity)) == pitch,
        word_velocity(next_word(old, pitch, velocity)) == velocity,
        word_first(next_word(old, pitch, velocity)) == 0,
        word_first(old) == 0 && word_pitch(old) == pitch && word_velocity(old) == velocity
            && word_round_robin(old) < 255 ==> word_round_robin(next_word(old, pitch, velocity))
            == word_round_robin(old) + 1,
        !(word_first(old) == 0 && word_pitch(old) == pitch && word_velocity(old) == velocity)
            ==> word_round_robin(next_word(old, pitch, velocity)) == 0,
{
    let again = word_first(old) == 0 && word_pitch(old) == pitch && word_velocity(old)
        == velocity;
    let rr: u8 = if again {
        ((word_round_robin(old) + 1) % 256) as u8
    } else {
        0
    };
    lemma_word_fields(0, pitch, velocity, rr);
}

/// State shared by the capture callback, the workers and the main thread: the
/// identity of the latest note started, whether the sweep is over, and the largest
/// latency measured, in samples.
pub struct RunState {
    note_data: AtomicU32,
    done: AtomicBool,
    latency: AtomicUsize,
}

impl RunState {
    /// Shared state before the first note; the note identity reads as `initial_pitch`
    /// at full velocity, take 0.
    pub fn new(initial_pitch: u8) -> (r: RunState) {
        RunState {
            note_data: AtomicU32::new(note_word(1, initial_pitch, 127, 0)),
            done: AtomicBool::new(false),
            latency: AtomicUsize::new(0),
        }
    }

    /// Whether the sweep is over.
    pub fn done(&self) -> bool {
        self.done.load(Ordering::Acquire)
    }

    /// The largest latency measured so far, in samples.
    pub fn latency(&self) -> usize {
        self.latency.load(Ordering::Acquire)
    }

    /// Pitch, velocity and take number of the latest note started.
    pub fn note(&self, ordering: Ordering) -> (u8, u8, u8) {
        word_note(self.note_data.load(ordering))
    }

    /// Announces a note-on; its take number follows [`next_word`].
    pub fn new_note(&self, note: &Note) {
        let old = self.note_data.load(Ordering::Relaxed);
        self.note_data.store(next_note_word(old, note.pitch, note.velocity), Ordering::Release);
    }

    /// Marks the sweep as over; it stays over.
    pub fn mark_done(&self) {
        self.done.store(true, Ordering::Release);
    }

    /// Raises the latency to `samples` if that is larger.
    pub fn record_latency(&self, samples: usize) {
        self.latency.fetch_max(samples, Ordering::Release);
    }
}

} // verus!

verus! {

#[verifier::external_type_specification]
#[verifier::external_body]
#[verifier::reject_recursive_types(T)]
pub struct ExProducer<T>(rtrb::Producer<T>);

/// Relies on `rtrb::Producer::push`: it never blocks, and when the queue is full it
/// hands the value back and queues nothing. Whether it fit is all that is returned.
#[verifier::external_body]
fn try_push<T>(queue: &mut rtrb::Producer<T>, value: T) -> (pushed: bool) {
    queue.push(value).is_ok()
}

/// An item of the audio queue: a mark to start a new file here, or one sample.
#[derive(Debug, Clone, Copy, PartialEq, Eq, Structural)]
pub enum MaybeSample<T> {
    /// Start a new file here
    Break,
    /// One sample of audio
    Sample(T),
}

/// What the capture callback does for one frame.
#[derive(Debug, Clone, Copy, PartialEq, Eq, Structural)]
pub struct FramePlan {
    /// The latency timer after the frame
    pub timer: Option<usize>,
    /// The note event to dispatch, if any
    pub note: Option<Note>,
    /// Whether a note-on starts here: announce it, then queue a file break
    pub boundary: bool,
    /// Whether the sweep ended here
    pub done: bool,
    /// The latency measured at this frame, if any
    pub latency: Option<usize>,
    /// Whether the frame's samples are queued
    pub emit: bool,
}

/// The latency timer one frame later; it stops at the largest `usize`.
pub open spec fn tick(timer: Option<usize>) -> Option<usize> {
    match timer {
        Some(t) => Some(
            if t < usize::MAX {
                (t + 1) as usize
            } else {
                t
            },
        ),
        None => None,
    }
}

/// The plan for a frame, from the timer before it, what the sequencer returned for it,
/// whether all its samples are zero, and whether leading silence is trimmed.
///
/// A note-on arms the timer at 0; the first frame that is not silent after it records
/// the timer as the latency and disarms it. With trimming, a silent frame before the
/// note has sounded is left out.
pub open spec fn frame_plan(
    timer: Option<usize>,
    result: AdvanceResult,
    silent: bool,
    trim_start: bool,
) -> FramePlan {
    let ticked = tick(timer);
    let is_on = result is Event && result->note.state == NoteState::On;
    let armed = if is_on {
        Some(0usize)
    } else {
        ticked
    };
    let note = if result is Event {
        Some(result->note)
    } else {
        None
    };
    let done = result is SequenceComplete;
    if silent {
        FramePlan {
            timer: armed,
            note,
            boundary: is_on,
            done,
            latency: None,
            emit: !(trim_start && armed is Some),
        }
    } else {
        FramePlan { timer: None, note, boundary: is_on, done, latency: armed, emit: true }
    }
}

/// Plans one frame (see [`frame_plan`]).
pub fn plan_frame(timer: Option<usize>, result: AdvanceResult, silent: bool, trim_start: bool) -> (p:
    FramePlan)
    ensures
        p == frame_plan(timer, result, silent, trim_start),
{
    let ticked = match timer {
        Some(t) => Some(
            if t < usize::MAX {
                t + 1
            } else {
                t
            },
        ),
        None => None,
    };
    let (armed, note, boundary, done) = match result {
        AdvanceResult::Event { position: _, note } => {
            match note.state {
                NoteState::On => (Some(0usize), Some(note), true, false),
                NoteState::Off => (ticked, Some(note), false, false),
            }
        },
        AdvanceResult::SequenceComplete => (ticked, None, false, true),
        AdvanceResult::NoEventsInFrame => (ticked, None, false, false),
    };
    if silent {
        let emit = !(trim_start && armed.is_some());
        FramePlan { timer: armed, note, boundary, done, latency: None, emit }
    } else {
        FramePlan { timer: None, note, boundary, done, latency: armed, emit: true }
    }
}

/// Whether every sample of `s` is zero.
pub open spec fn all_zero(s: Seq<i16>) -> bool {
    forall|i: int| 0 <= i < s.len() ==> s[i] == 0
}

/// The frames of `s`: `channels` interleaved samples each, the last one possibly short.
pub open spec fn frames_of(s: Seq<i16>, channels: int) -> Seq<Seq<i16>>
    decreases s.len(),
{
    if s.len() == 0 || channels <= 0 {
        Seq::empty()
    } else if s.len() <= channels {
        seq![s]
    } else {
        seq![s.take(channels)] + frames_of(s.skip(channels), channels)
    }
}

/// The samples of `frame` as queue items.
pub open spec fn sample_items(frame: Seq<i16>) -> Seq<MaybeSample<i16>> {
    frame.map_values(|x: i16| MaybeSample::Sample(x))
}

/// What one frame offers the audio queue: a file break where a note starts, then the
/// frame's samples unless the frame is left out.
pub open spec fn frame_audio(plan: FramePlan, frame: Seq<i16>) -> Seq<MaybeSample<i16>> {
    (if plan.boundary {
        seq![MaybeSample::Break]
    } else {
        Seq::empty()
    }) + (if plan.emit {
        sample_items(frame)
    } else {
        Seq::empty()
    })
}

/// What one frame offers the note queue.
pub open spec fn frame_notes(plan: FramePlan) -> Seq<Note> {
    match plan.note {
        Some(n) => seq![n],
        None => Seq::empty(),
    }
}

/// The effect of a run of frames on the capture side.
pub struct CaptureOutcome {
    /// The sequencer afterwards
    pub seq: SequencerView,
    /// The latency timer afterwards
    pub timer: Option<usize>,
    /// The items offered to the audio queue, in order
    pub audio: Seq<MaybeSample<i16>>,
    /// The note events offered to the note queue, in order
    pub notes: Seq<Note>,
    /// For each frame, whether a note started there
    pub starts: Seq<bool>,
    /// For each item offered to the audio queue, the frame it came from
    pub item_frames: Seq<int>,
}

/// The capture side over `frames`, one `advance(1)` per frame, from the sequencer `v`
/// and the latency timer `timer`.
pub open spec fn capture_model(
    v: SequencerView,
    timer: Option<usize>,
    frames: Seq<Seq<i16>>,
    trim_start: bool,
) -> CaptureOutcome
    decreases frames.len(),
{
    if frames.len() == 0 {
        CaptureOutcome {
            seq: v,
            timer,
            audio: Seq::empty(),
            notes: Seq::empty(),
            starts: Seq::empty(),
            item_frames: Seq::empty(),
        }
    } else {
        let (w, r) = advance_model(v, 1);
        let plan = frame_plan(timer, r, all_zero(frames[0]), trim_start);
        let rest = capture_model(w, plan.timer, frames.drop_first(), trim_start);
        CaptureOutcome {
            seq: rest.seq,
            timer: rest.timer,
            audio: frame_audio(plan, frames[0]) + rest.audio,
            notes: frame_notes(plan) + rest.notes,
            starts: seq![plan.boundary] + rest.starts,
            item_frames: Seq::new(frame_audio(plan, frames[0]).len(), |k: int| 0int)
                + rest.item_frames.map_values(|f: int| f + 1),
        }
    }
}

/// Offers `value` to `queue` and records the offer in `log`.
fn offer<T>(queue: &mut rtrb::Producer<T>, value: T, log: &mut Ghost<Seq<T>>)
    ensures
        final(log)@ == old(log)@.push(value),
{
    proof {
        *log = Ghost(log@.push(value));
    }
    try_push(queue, value);
}

/// Whether the samples of `input` from `start` to `end` are all zero.
fn frame_is_silent(input: &[i16], start: usize, end: usize) -> (r: bool)
    requires
        start <= end <= input@.len(),
    ensures
        r == all_zero(input@.subrange(start as int, end as int)),
{
    let mut j: usize = start;
    while j < end
        invariant
            start <= j <= end <= input@.len(),
            all_zero(input@.subrange(start as int, j as int)),
        decreases end - j,
    {
        if input[j] != 0 {
            assert(input@.subrange(start as int, end as int)[j - start] != 0);
            return false;
        }
        assert(input@.subrange(start as int, j + 1) =~= input@.subrange(start as int, j as int).push(
            input@[j as int],
        ));
        j = j + 1;
    }
    true
}

/// Offers the samples of `input` from `start` to `end` to the audio queue.
fn push_samples(
    writer: &mut rtrb::Producer<MaybeSample<i16>>,
    input: &[i16],
    start: usize,
    end: usize,
    log: &mut Ghost<Seq<MaybeSample<i16>>>,
)
    requires
        start <= end <= input@.len(),
    ensures
        final(log)@ == old(log)@ + sample_items(input@.subrange(start as int, end as int)),
{
    let mut k: usize = start;
    while k < end
        invariant
            start <= k <= end <= input@.len(),
            log@ == old(log)@ + sample_items(input@.subrange(start as int, k as int)),
        decreases end - k,
    {
        offer(writer, MaybeSample::Sample(input[k]), log);
        assert(sample_items(input@.subrange(start as int, k + 1)) =~= sample_items(
            input@.subrange(start as int, k as int),
        ).push(MaybeSample::Sample(input@[k as int])));
        k = k + 1;
    }
}

/// The capture callback: steps the sequencer by one frame per frame of audio, and
/// feeds the note queue and the audio queue.
#[verifier::reject_recursive_types(U)]
pub struct AudioProcessor<U> {
    pub seq: Sequencer,
    pub sender: rtrb::Producer<Note>,
    pub writer: rtrb::Producer<MaybeSample<U>>,
    pub channels: usize,
    pub state: Arc<RunState>,
    pub latency_timer: Option<usize>,
    pub trim_start: bool,
}

impl AudioProcessor<i16> {
    /// Handles the frame of `input` from `start` to `end`, `silent` saying whether
    /// all its samples are zero; records what it offers the queues.
    fn process_frame(
        &mut self,
        input: &[i16],
        start: usize,
        end: usize,
        silent: bool,
        audio: &mut Ghost<Seq<MaybeSample<i16>>>,
        notes: &mut Ghost<Seq<Note>>,
    ) -> (plan: Ghost<FramePlan>)
        requires
            old(self).seq.wf(),
            start <= end <= input@.len(),
            silent == all_zero(input@.subrange(start as int, end as int)),
        ensures
            final(self).seq.wf(),
            final(self).channels == old(self).channels,
            final(self).trim_start == old(self).trim_start,
            ({
                let (w, r) = advance_model(old(self).seq@, 1);
                &&& plan@ == frame_plan(old(self).latency_timer, r, silent, old(self).trim_start)
                &&& final(self).seq@ == w
                &&& final(self).latency_timer == plan@.timer
                &&& final(audio)@ == old(audio)@ + frame_audio(
                    plan@,
                    input@.subrange(start as int, end as int),
                )
                &&& final(notes)@ == old(notes)@ + frame_notes(plan@)
            }),
    {
        let ghost audio_before = audio@;
        let ghost notes_before = notes@;
        let result = self.seq.advance(1);
        let plan = plan_frame(self.latency_timer, result, silent, self.trim_start);
        if plan.done {
            self.state.mark_done();
        }
        if plan.boundary {
            if let Some(note) = plan.note {
                self.state.new_note(&note);
            }
            offer(&mut self.writer, MaybeSample::Break, audio);
        }
        let ghost audio_mid = audio@;
        if let Some(note) = plan.note {
            offer(&mut self.sender, note, notes);
        }
        if let Some(t) = plan.latency {
            self.state.record_latency(t);
        }
        self.latency_timer = plan.timer;
        if plan.emit {
            push_samples(&mut self.writer, input, start, end, audio);
        }
        assert(audio@ =~= audio_before + frame_audio(plan, input@.subrange(start as int, end as int)));
        assert(notes@ =~= notes_before + frame_notes(plan));
        Ghost(plan)
    }

    /// Handles one buffer of interleaved samples.
    ///
    /// For each frame: advance the sequencer by one; on a note-on, announce the note,
    /// queue a file break and then the note; queue any other note event; at the end
    /// of the sweep, mark it done; then queue the frame's samples unless it is left
    /// out (see [`frame_plan`]). A full queue drops the item; nothing blocks.
    ///
    /// Returns what it offered the audio queue and the note queue, in order.
    pub fn write_input_data(&mut self, input: &[i16]) -> (offered: Ghost<
        (Seq<MaybeSample<i16>>, Seq<Note>),
    >)
        requires
            old(self).seq.wf(),
            old(self).channels >= 1,
        ensures
            final(self).seq.wf(),
            final(self).channels == old(self).channels,
            final(self).trim_start == old(self).trim_start,
            ({
                let out = capture_model(
                    old(self).seq@,
                    old(self).latency_timer,
                    frames_of(input@, old(self).channels as int),
                    old(self).trim_start,
                );
                &&& final(self).seq@ == out.seq
                &&& final(self).latency_timer == out.timer
                &&& offered@.0 == out.audio
                &&& offered@.1 == out.notes
            }),
    {
        let ch = self.channels;
        let mut start: usize = 0;
        let mut audio: Ghost<Seq<MaybeSample<i16>>> = Ghost(Seq::empty());
        let mut notes: Ghost<Seq<Note>> = Ghost(Seq::empty());
        let ghost first = self.seq@;
        let ghost first_timer = self.latency_timer;
        assert(input@.skip(0) =~= input@);
        while start < input.len()
            invariant
                self.seq.wf(),
                self.channels == ch == old(self).channels,
                ch >= 1,
                self.trim_start == old(self).trim_start,
                start <= input@.len(),
                ({
                    let all = capture_model(
                        first,
                        first_timer,
                        frames_of(input@, ch as int),
                        self.trim_start,
                    );
                    let rest = capture_model(
                        self.seq@,
                        self.latency_timer,
                        frames_of(input@.skip(start as int), ch as int),
                        self.trim_start,
                    );
                    &&& all.seq == rest.seq
                    &&& all.timer == rest.timer
                    &&& all.audio == audio@ + rest.audio
                    &&& all.notes == notes@ + rest.notes
                }),
            decreases input@.len() - start,
        {
            let end: usize = if input.len() - start <= ch {
                input.len()
            } else {
                start + ch
            };
            let ghost rest = input@.skip(start as int);
            let ghost frame = input@.subrange(start as int, end as int);
            let silent = frame_is_silent(input, start, end);
            proof {
                if rest.len() <= ch {
                    assert(frame =~= rest);
                    assert(input@.skip(end as int) =~= Seq::<i16>::empty());
                    assert(frames_of(rest, ch as int) == seq![rest]);
                } else {
                    assert(frame =~= rest.take(ch as int));
                    assert(input@.skip(end as int) =~= rest.skip(ch as int));
                }
                assert(frames_of(rest, ch as int)[0] == frame);
                assert(frames_of(rest, ch as int).drop_first() =~= frames_of(
                    input@.skip(end as int),
                    ch as int,
                ));
            }
            let ghost v0 = self.seq@;
            let ghost t0 = self.latency_timer;
            let ghost audio_before = audio@;
            let ghost notes_before = notes@;
            let plan = self.process_frame(input, start, end, silent, &mut audio, &mut notes);
            proof {
                let next = capture_model(
                    self.seq@,
                    self.latency_timer,
                    frames_of(input@.skip(end as int), ch as int),
                    self.trim_start,
                );
                let here = capture_model(v0, t0, frames_of(rest, ch as int), self.trim_start);
                assert(here.audio == frame_audio(plan@, frame) + next.audio);
                assert(here.notes == frame_notes(plan@) + next.notes);
                assert(audio_before + (frame_audio(plan@, frame) + next.audio) =~= audio@
                    + next.audio);
                assert(notes_before + (frame_notes(plan@) + next.notes) =~= notes@ + next.notes);
            }
            start = end;
        }
        assert(input@.skip(start as int) =~= Seq::<i16>::empty());
        assert(audio@ + Seq::<MaybeSample<i16>>::empty() =~= audio@);
        assert(notes@ + Seq::<Note>::empty() =~= notes@);
        Ghost((audio@, notes@))
    }
}

} // verus!

verus! {

/// Where the writer thread is.
#[derive(Debug, Clone, Copy, PartialEq, Eq, Structural)]
pub enum WriterPhase {
    /// Recording, before the first file break: no file is open yet
    Waiting,
    /// Recording, with a file open
    Recording,
    /// Not recording: everything popped is thrown away
    Discarding,
    /// Finished
    Finished,
}

/// What the writer thread does next.
#[derive(Debug, Clone, Copy, PartialEq, Eq, Structural)]
pub enum WriterAction {
    /// The queue is empty and the sweep goes on: wait a little and look again
    Sleep,
    /// The queue is empty and the sweep is over: close any open file and stop
    Finish,
    /// Open the first file, named after the current note
    Open,
    /// Close the open file and open the next, named after the current note
    Rotate,
    /// Append a sample to the open file
    Write(i16),
    /// Throw the item away
    Skip,
}

/// The writer's next phase and action, given what was popped (`None` for an empty
/// queue) and whether the sweep is over. The queue is only given up once it is empty.
pub open spec fn writer_next(
    phase: WriterPhase,
    popped: Option<MaybeSample<i16>>,
    done: bool,
) -> (WriterPhase, WriterAction) {
    match popped {
        None => if phase == WriterPhase::Finished || done {
            (WriterPhase::Finished, WriterAction::Finish)
        } else {
            (phase, WriterAction::Sleep)
        },
        Some(item) => match phase {
            WriterPhase::Waiting => match item {
                MaybeSample::Break => (WriterPhase::Recording, WriterAction::Open),
                MaybeSample::Sample(_) => (WriterPhase::Waiting, WriterAction::Skip),
            },
            WriterPhase::Recording => match item {
                MaybeSample::Break => (WriterPhase::Recording, WriterAction::Rotate),
                MaybeSample::Sample(x) => (WriterPhase::Recording, WriterAction::Write(x)),
            },
            _ => (phase, WriterAction::Skip),
        },
    }
}

/// Decides the writer's next step (see [`writer_next`]).
pub fn writer_step(phase: WriterPhase, popped: Option<MaybeSample<i16>>, done: bool) -> (r: (
    WriterPhase,
    WriterAction,
))
    ensures
        r == writer_next(phase, popped, done),
{
    match popped {
        None => {
            if phase == WriterPhase::Finished || done {
                (WriterPhase::Finished, WriterAction::Finish)
            } else {
                (phase, WriterAction::Sleep)
            }
        },
        Some(item) => match phase {
            WriterPhase::Waiting => match item {
                MaybeSample::Break => (WriterPhase::Recording, WriterAction::Open),
                MaybeSample::Sample(_) => (WriterPhase::Waiting, WriterAction::Skip),
            },
            WriterPhase::Recording => match item {
                MaybeSample::Break => (WriterPhase::Recording, WriterAction::Rotate),
                MaybeSample::Sample(x) => (WriterPhase::Recording, WriterAction::Write(x)),
            },
            _ => (phase, WriterAction::Skip),
        },
    }
}

/// The number of file breaks among the first `i` items.
pub open spec fn breaks_before(items: Seq<MaybeSample<i16>>, i: int) -> int
    decreases i,
{
    if i <= 0 {
        0
    } else {
        breaks_before(items, i - 1) + if items[i - 1] is Break {
            1int
        } else {
            0int
        }
    }
}

/// A recording writer fed `items` in queue order: its phase, the number of files
/// it opened, and each sample written with the number of the file it went to
/// (counting from 0) and its place in `items`.
pub open spec fn writer_run(items: Seq<MaybeSample<i16>>) -> (WriterPhase, int, Seq<(int, i16, int)>)
    decreases items.len(),
{
    if items.len() == 0 {
        (WriterPhase::Waiting, 0, Seq::empty())
    } else {
        let (phase, files, writes) = writer_run(items.drop_last());
        let (next, action) = writer_next(phase, Some(items.last()), false);
        match action {
            WriterAction::Open => (next, files + 1, writes),
            WriterAction::Rotate => (next, files + 1, writes),
            WriterAction::Write(x) => (next, files, writes.push((files - 1, x, items.len() - 1))),
            _ => (next, files, writes),
        }
    }
}

/// Each sample written by the writer: the item at its place is that sample, at least
/// one break comes before it, and its file is the one that the last of those breaks
/// opened.
pub open spec fn attributed(items: Seq<MaybeSample<i16>>, writes: Seq<(int, i16, int)>) -> bool {
    forall|k: int|
        0 <= k < writes.len() ==> {
            let w = #[trigger] writes[k];
            &&& 0 <= w.2 < items.len()
            &&& items[w.2] == MaybeSample::Sample(w.1)
            &&& breaks_before(items, w.2) >= 1
            &&& w.0 == breaks_before(items, w.2) - 1
        }
}

/// Every sample queued after the first break is written.
pub open spec fn complete(items: Seq<MaybeSample<i16>>, writes: Seq<(int, i16, int)>) -> bool {
    forall|i: int|
        0 <= i < items.len() && items[i] is Sample && breaks_before(items, i) >= 1 ==> exists|
            k: int,
        |
            0 <= k < writes.len() && (#[trigger] writes[k]).2 == i
}

proof fn lemma_writer_files(items: Seq<MaybeSample<i16>>)
    ensures
        writer_run(items).1 == breaks_before(items, items.len() as int),
        writer_run(items).1 >= 0,
        writer_run(items).0 == WriterPhase::Waiting <==> writer_run(items).1 == 0,
        writer_run(items).0 == WriterPhase::Waiting || writer_run(items).0
            == WriterPhase::Recording,
    decreases items.len(),
{
    if items.len() > 0 {
        let pre = items.drop_last();
        lemma_writer_files(pre);
        lemma_breaks_prefix(items, pre, pre.len() as int);
    }
}

proof fn lemma_run_prefix(items: Seq<MaybeSample<i16>>)
    requires
        items.len() > 0,
    ensures
        ({
            let pre = items.drop_last();
            let writes = writer_run(pre).2;
            let writes2 = writer_run(items).2;
            &&& writes2.len() == writes.len() || writes2.len() == writes.len() + 1
            &&& forall|k: int| 0 <= k < writes.len() ==> writes2[k] == writes[k]
            &&& forall|i: int| 0 <= i <= pre.len() ==> breaks_before(items, i) == breaks_before(pre, i)
        }),
{
    let pre = items.drop_last();
    assert forall|i: int| 0 <= i <= pre.len() implies breaks_before(items, i) == breaks_before(
        pre,
        i,
    ) by {
        lemma_breaks_prefix(items, pre, i);
    }
}

proof fn lemma_attributed(items: Seq<MaybeSample<i16>>)
    ensures
        attributed(items, writer_run(items).2),
    decreases items.len(),
{
    if items.len() > 0 {
        let pre = items.drop_last();
        let n = pre.len() as int;
        lemma_attributed(pre);
        lemma_writer_files(pre);
        lemma_run_prefix(items);
        let writes = writer_run(pre).2;
        let writes2 = writer_run(items).2;
        assert forall|k: int| 0 <= k < writes2.len() implies {
            let w = #[trigger] writes2[k];
            &&& 0 <= w.2 < items.len()
            &&& items[w.2] == MaybeSample::Sample(w.1)
            &&& breaks_before(items, w.2) >= 1
            &&& w.0 == breaks_before(items, w.2) - 1
        } by {
            if k < writes.len() {
                let w = writes[k];
                assert(pre[w.2] == items[w.2]);
            } else {
                let (phase, files, _) = writer_run(pre);
                assert(phase == WriterPhase::Recording);
                assert(files == breaks_before(items, n));
                assert(writes2[k].2 == n);
                assert(writes2[k].0 == files - 1);
            }
        }
    }
}

proof fn lemma_complete(items: Seq<MaybeSample<i16>>)
    ensures
        complete(items, writer_run(items).2),
    decreases items.len(),
{
    if items.len() > 0 {
        let pre = items.drop_last();
        let n = pre.len() as int;
        lemma_complete(pre);
        lemma_writer_files(pre);
        lemma_run_prefix(items);
        let writes = writer_run(pre).2;
        let writes2 = writer_run(items).2;
        assert forall|i: int|
            0 <= i < items.len() && items[i] is Sample && breaks_before(items, i) >= 1 implies exists|
                k: int,
            |
                0 <= k < writes2.len() && (#[trigger] writes2[k]).2 == i by {
            if i < n {
                assert(pre[i] == items[i]);
                let k = choose|k: int| 0 <= k < writes.len() && (#[trigger] writes[k]).2 == i;
                assert(writes2[k] == writes[k]);
            } else {
                assert(writes2[writes2.len() - 1].2 == i);
            }
        }
    }
}

/// Samples go to the file of the last break queued before them, so no sample lands
/// in a file whose break was queued after it; and every sample queued after the first
/// break is written.
pub proof fn lemma_samples_follow_breaks(items: Seq<MaybeSample<i16>>)
    ensures
        writer_run(items).1 == breaks_before(items, items.len() as int),
        attributed(items, writer_run(items).2),
        complete(items, writer_run(items).2),
{
    lemma_writer_files(items);
    lemma_attributed(items);
    lemma_complete(items);
}

proof fn lemma_breaks_prefix(items: Seq<MaybeSample<i16>>, pre: Seq<MaybeSample<i16>>, i: int)
    requires
        pre.len() <= items.len(),
        forall|j: int| 0 <= j < pre.len() ==> pre[j] == items[j],
        0 <= i <= pre.len(),
    ensures
        breaks_before(items, i) == breaks_before(pre, i),
    decreases i,
{
    if i > 0 {
        lemma_breaks_prefix(items, pre, i - 1);
    }
}

} // verus!

verus! {

/// What the MIDI dispatch thread does next.
#[derive(Debug, Clone, Copy, PartialEq, Eq, Structural)]
pub enum DispatchAction {
    /// Stop: the capture side is gone or the sweep is over
    Stop,
    /// Pop the next note event
    Poll,
    /// Send this three-byte note message, then poll again
    Send(u8, u8, u8),
    /// Nothing came in this pass: wait a little, then start a new pass
    Sleep,
}

/// The dispatch thread's next action. `pass_started` says whether a pass is under
/// way (else the stop conditions are checked first), `popped` what the last poll
/// gave, and `sent_any` whether this pass sent anything. A pass drains every note
/// event available; it sleeps only when it found none.
pub open spec fn dispatch_next(
    abandoned: bool,
    done: bool,
    pass_started: bool,
    popped: Option<Note>,
    sent_any: bool,
    channel: u8,
) -> DispatchAction {
    if !pass_started {
        if abandoned || done {
            DispatchAction::Stop
        } else {
            DispatchAction::Poll
        }
    } else {
        match popped {
            Some(n) => DispatchAction::Send(status_byte(n.state, channel), n.pitch, n.velocity),
            None => if sent_any {
                if abandoned || done {
                    DispatchAction::Stop
                } else {
                    DispatchAction::Poll
                }
            } else {
                DispatchAction::Sleep
            },
        }
    }
}

/// Decides the dispatch thread's next action (see [`dispatch_next`]).
pub fn dispatch_step(
    abandoned: bool,
    done: bool,
    pass_started: bool,
    popped: Option<Note>,
    sent_any: bool,
    channel: Channel,
) -> (r: DispatchAction)
    ensures
        r == dispatch_next(abandoned, done, pass_started, popped, sent_any, channel.spec_number()),
{
    if !pass_started {
        if abandoned || done {
            DispatchAction::Stop
        } else {
            DispatchAction::Poll
        }
    } else {
        match popped {
            Some(n) => {
                let msg = n.as_midi_message(channel);
                DispatchAction::Send(msg[0], msg[1], msg[2])
            },
            None => if sent_any {
                if abandoned || done {
                    DispatchAction::Stop
                } else {
                    DispatchAction::Poll
                }
            } else {
                DispatchAction::Sleep
            },
        }
    }
}

} // verus!

verus! {

/// The number of frames among the first `k` where a note started.
pub open spec fn count_starts(starts: Seq<bool>, k: int) -> int
    decreases k,
{
    if k <= 0 {
        0
    } else {
        count_starts(starts, k - 1) + if starts[k - 1] {
            1int
        } else {
            0int
        }
    }
}

proof fn lemma_breaks_concat(a: Seq<MaybeSample<i16>>, b: Seq<MaybeSample<i16>>, j: int)
    requires
        0 <= j <= b.len(),
    ensures
        breaks_before(a + b, a.len() + j) == breaks_before(a, a.len() as int) + breaks_before(b, j),
    decreases j,
{
    if j == 0 {
        assert forall|k: int| 0 <= k < a.len() implies a[k] == (a + b)[k] by {}
        lemma_breaks_prefix(a + b, a, a.len() as int);
    } else {
        lemma_breaks_concat(a, b, j - 1);
        assert((a + b)[a.len() + j - 1] == b[j - 1]);
    }
}

proof fn lemma_frame_breaks(plan: FramePlan, frame: Seq<i16>, i: int)
    requires
        0 <= i <= frame_audio(plan, frame).len(),
    ensures
        breaks_before(frame_audio(plan, frame), i) == if plan.boundary && i >= 1 {
            1int
        } else {
            0int
        },
    decreases i,
{
    let fa = frame_audio(plan, frame);
    if i > 0 {
        lemma_frame_breaks(plan, frame, i - 1);
        if plan.boundary {
            assert(fa[0] == MaybeSample::<i16>::Break);
            if i - 1 >= 1 {
                assert(fa[i - 1] is Sample);
            }
        } else {
            assert(fa[i - 1] is Sample);
        }
    }
}

proof fn lemma_count_cons(b: bool, s: Seq<bool>, k: int)
    requires
        0 <= k <= s.len(),
    ensures
        count_starts(seq![b] + s, k + 1) == (if b {
            1int
        } else {
            0int
        }) + count_starts(s, k),
    decreases k,
{
    let c = seq![b] + s;
    if k > 0 {
        lemma_count_cons(b, s, k - 1);
        assert(c[k] == s[k - 1]);
        assert(count_starts(c, k + 1) == count_starts(c, k) + if c[k] {
            1int
        } else {
            0int
        });
        assert(count_starts(s, k) == count_starts(s, k - 1) + if s[k - 1] {
            1int
        } else {
            0int
        });
    } else {
        assert(c[0] == b);
        assert(count_starts(c, 0) == 0);
        assert(count_starts(s, 0) == 0);
    }
}

/// Along the items that the capture side offers the audio queue, every sample comes
/// after exactly as many file breaks as there are frames up to and including its own
/// where a note started: its own note's break is before it, and no later one.
pub proof fn lemma_capture_breaks(
    v: SequencerView,
    timer: Option<usize>,
    frames: Seq<Seq<i16>>,
    trim_start: bool,
)
    ensures
        ({
            let out = capture_model(v, timer, frames, trim_start);
            &&& out.item_frames.len() == out.audio.len()
            &&& out.starts.len() == frames.len()
            &&& forall|i: int|
                0 <= i < out.audio.len() ==> 0 <= #[trigger] out.item_frames[i] < frames.len()
            &&& forall|i: int|
                0 <= i < out.audio.len() && (#[trigger] out.audio[i]) is Sample ==> breaks_before(
                    out.audio,
                    i,
                ) == count_starts(out.starts, out.item_frames[i] + 1)
        }),
    decreases frames.len(),
{
    if frames.len() > 0 {
        let (w, r) = advance_model(v, 1);
        let plan = frame_plan(timer, r, all_zero(frames[0]), trim_start);
        let rest = capture_model(w, plan.timer, frames.drop_first(), trim_start);
        lemma_capture_breaks(w, plan.timer, frames.drop_first(), trim_start);
        let out = capture_model(v, timer, frames, trim_start);
        let fa = frame_audio(plan, frames[0]);
        let n = fa.len() as int;
        assert(out.audio == fa + rest.audio);
        assert forall|i: int| 0 <= i < out.audio.len() implies 0 <= #[trigger] out.item_frames[i]
            < frames.len() by {
            if i >= n {
                assert(out.item_frames[i] == rest.item_frames[i - n] + 1);
            }
        }
        assert forall|i: int|
            0 <= i < out.audio.len() && (#[trigger] out.audio[i]) is Sample implies breaks_before(
                out.audio,
                i,
            ) == count_starts(out.starts, out.item_frames[i] + 1) by {
            if i < n {
                assert(out.audio[i] == fa[i]);
                lemma_breaks_concat(fa, rest.audio, 0);
                lemma_breaks_prefix(out.audio, fa, i);
                assert forall|k: int| 0 <= k < fa.len() implies fa[k] == out.audio[k] by {}
                lemma_frame_breaks(plan, frames[0], i);
                if plan.boundary {
                    assert(fa[0] is Break);
                    assert(i >= 1);
                }
                assert(out.item_frames[i] == 0);
                lemma_count_cons(plan.boundary, rest.starts, 0);
            } else {
                let j = i - n;
                assert(out.audio[i] == rest.audio[j]);
                lemma_breaks_concat(fa, rest.audio, j);
                lemma_frame_breaks(plan, frames[0], n);
                assert(out.item_frames[i] == rest.item_frames[j] + 1);
                lemma_count_cons(plan.boundary, rest.starts, rest.item_frames[j] + 1);
            }
        }
    }
}

/// Through the capture side and a recording writer, each sample written goes to the
/// file of the last note started at or before its frame: file `k` (from 0) holds only
/// samples of frames after the `k + 1`-th note-on and not after the next one.
pub proof fn lemma_captured_samples_files(
    v: SequencerView,
    timer: Option<usize>,
    frames: Seq<Seq<i16>>,
    trim_start: bool,
)
    ensures
        ({
            let out = capture_model(v, timer, frames, trim_start);
            let writes = writer_run(out.audio).2;
            forall|k: int|
                0 <= k < writes.len() ==> {
                    let w = #[trigger] writes[k];
                    &&& 0 <= w.2 < out.audio.len()
                    &&& w.0 == count_starts(out.starts, out.item_frames[w.2] + 1) - 1
                }
        }),
{
    let out = capture_model(v, timer, frames, trim_start);
    lemma_capture_breaks(v, timer, frames, trim_start);
    lemma_samples_follow_breaks(out.audio);
    let writes = writer_run(out.audio).2;
    assert forall|k: int| 0 <= k < writes.len() implies {
        let w = #[trigger] writes[k];
        &&& 0 <= w.2 < out.audio.len()
        &&& w.0 == count_starts(out.starts, out.item_frames[w.2] + 1) - 1
    } by {
        let w = writes[k];
        assert(out.audio[w.2] is Sample);
    }
}

} // verus!
