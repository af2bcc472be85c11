use vstd::prelude::*;

use crate::midi::{decimal, decimal_text, out_of_bounds_text, InvalidMidiNote, Note, NoteState, OutOfBounds};

verus! {

/// Relies on `RangeInclusive::start`: it returns the range's lower bound.
pub assume_specification<Idx>[ core::ops::RangeInclusive::<Idx>::start ](
    r: &core::ops::RangeInclusive<Idx>,
) -> (ret: &Idx)
    ensures
        *ret == r@.start,
;

/// Relies on `RangeInclusive::end`: it returns the range's upper bound.
pub assume_specification<Idx>[ core::ops::RangeInclusive::<Idx>::end ](
    r: &core::ops::RangeInclusive<Idx>,
) -> (ret: &Idx)
    ensures
        *ret == r@.end,
;

/// A length of time, in nanoseconds.
#[derive(Debug, Clone, Copy, PartialEq, Eq, Structural)]
pub struct Span {
    /// Nanoseconds
    pub nanos: u64,
}

impl Span {
    /// A span of `nanos` nanoseconds.
    pub fn from_nanos(nanos: u64) -> (r: Span)
        ensures
            r.nanos == nanos,
    {
        Span { nanos }
    }

    /// A span of `ms` milliseconds (the longest span where that does not fit).
    pub fn from_millis(ms: u64) -> (r: Span)
        ensures
            r.nanos == if ms * 1_000_000 <= u64::MAX { ms * 1_000_000 } else { u64::MAX as int },
    {
        if ms > u64::MAX / 1_000_000 {
            Span { nanos: u64::MAX }
        } else {
            Span { nanos: ms * 1_000_000 }
        }
    }
}

/// The whole number of samples that `nanos` nanoseconds last at `rate` samples per
/// second (truncated; the largest `usize` where it does not fit).
pub open spec fn span_samples(nanos: int, rate: int) -> int {
    let s = nanos * rate / 1_000_000_000;
    if s <= usize::MAX {
        s
    } else {
        usize::MAX as int
    }
}

/// The step between velocity layers for `levels` layers: 128 / levels, rounded up.
pub open spec fn velocity_step_for(levels: int) -> int {
    (127 + levels) / levels
}

/// How to sweep an instrument.
#[derive(Debug)]
pub struct Config {
    /// The MIDI note numbers to visit, both ends included
    pub notes: core::ops::RangeInclusive<u8>,
    /// The interval, in semitones, between the notes visited (at least 1)
    pub step: u8,
    /// The number of velocity layers at each note (at least 1)
    pub velocity_levels: u8,
    /// The number of takes at each note and velocity (at least 1)
    pub round_robins: u8,
    /// How long each note is held
    pub length: Span,
    /// How long to wait after releasing a note before the next one
    pub gap: Span,
}

impl Default for Config {
    fn default() -> (r: Config)
        ensures
            r.notes@.start == 0 && r.notes@.end == 127 && !r.notes@.exhausted,
            r.step == 1 && r.velocity_levels == 1 && r.round_robins == 1,
            r.length.nanos == 500_000_000 && r.gap.nanos == 500_000_000,
    {
        Config {
            notes: 0..=127,
            step: 1,
            velocity_levels: 1,
            round_robins: 1,
            length: Span { nanos: 500_000_000 },
            gap: Span { nanos: 500_000_000 },
        }
    }
}

/// Why a [`Sequencer`] could not be made.
#[derive(Debug, Clone, Copy, PartialEq, Eq, Structural)]
pub enum SequencerError {
    /// The first note is not a MIDI note
    StartNote(InvalidMidiNote),
    /// The last note is not a MIDI note
    EndNote(InvalidMidiNote),
    /// More than 128 velocity layers
    VelocityLevels(u8),
}

/// The text of a [`SequencerError`].
pub open spec fn sequencer_error_text(e: SequencerError) -> Seq<char> {
    match e {
        SequencerError::StartNote(b) => "Invalid start of note range: "@ + out_of_bounds_text(
            b.value,
            b.max,
        ),
        SequencerError::EndNote(b) => "Invalid end of note range: "@ + out_of_bounds_text(
            b.value,
            b.max,
        ),
        SequencerError::VelocityLevels(n) => "Maximum 128 possible velocity layers, specified "@
            + decimal_text(n as nat),
    }
}

impl SequencerError {
    /// A sentence saying what is wrong.
    pub fn message(&self) -> (r: String)
        ensures
            r@ == sequencer_error_text(*self),
    {
        match self {
            SequencerError::StartNote(b) => {
                let mut r = String::from_str("Invalid start of note range: ");
                let m = b.message();
                r.append(m.as_str());
                r
            },
            SequencerError::EndNote(b) => {
                let mut r = String::from_str("Invalid end of note range: ");
                let m = b.message();
                r.append(m.as_str());
                r
            },
            SequencerError::VelocityLevels(n) => {
                let mut r = String::from_str("Maximum 128 possible velocity layers, specified ");
                let d = decimal(*n as u16);
                r.append(d.as_str());
                r
            },
        }
    }
}

/// What one call to [`Sequencer::advance`] found.
#[derive(Debug, Clone, Copy, PartialEq, Eq, Structural)]
pub enum AdvanceResult {
    /// No event falls in the frames given; they have all elapsed.
    NoEventsInFrame,
    /// An event falls in the frames given.
    Event {
        /// The number of frames that elapsed before the event
        position: usize,
        /// The event
        note: Note,
    },
    /// The sweep is over; no more events will come.
    SequenceComplete,
}

/// The state of a [`Sequencer`] in mathematical terms.
pub struct SequencerView {
    /// Samples each note is held
    pub length: int,
    /// Samples between a note-off and the next note-on
    pub gap: int,
    /// The current note
    pub pitch: int,
    /// Semitones between notes
    pub pitch_step: int,
    /// The last note, included
    pub final_pitch: int,
    /// The current velocity
    pub velocity: int,
    /// The step between velocity layers
    pub velocity_step: int,
    /// The current take, from 0
    pub round_robin: int,
    /// Takes at each note and velocity
    pub round_robin_count: int,
    /// Samples until the next event
    pub samples_remaining: int,
    /// The kind of the next event
    pub next_status: NoteState,
}

/// The states a sequencer can be in.
pub open spec fn view_wf(v: SequencerView) -> bool {
    &&& 0 <= v.length <= usize::MAX
    &&& 0 <= v.gap <= usize::MAX
    &&& 0 <= v.samples_remaining <= usize::MAX
    &&& 1 <= v.pitch_step <= 255
    &&& 0 <= v.final_pitch <= 127
    &&& 0 <= v.pitch <= 127 + 255
    &&& 0 <= v.velocity <= 127
    &&& 1 <= v.velocity_step <= 128
    &&& 0 <= v.round_robin < v.round_robin_count <= 255
    &&& (v.next_status == NoteState::Off ==> v.pitch <= v.final_pitch)
}

/// The state after a note-off: the next take, else the next velocity layer down,
/// else full velocity at the next note.
pub open spec fn after_release(v: SequencerView) -> SequencerView {
    let rr = v.round_robin + 1;
    let base = SequencerView { samples_remaining: v.gap, next_status: NoteState::On, ..v };
    if rr < v.round_robin_count {
        SequencerView { round_robin: rr, ..base }
    } else if v.velocity >= v.velocity_step {
        SequencerView { round_robin: 0, velocity: v.velocity - v.velocity_step, ..base }
    } else {
        SequencerView { round_robin: 0, velocity: 127, pitch: v.pitch + v.pitch_step, ..base }
    }
}

/// What `advance(n)` does: the next state and the result.
pub open spec fn advance_model(v: SequencerView, n: int) -> (SequencerView, AdvanceResult) {
    if n <= v.samples_remaining {
        (
            SequencerView { samples_remaining: v.samples_remaining - n, ..v },
            AdvanceResult::NoEventsInFrame,
        )
    } else {
        let note = Note { pitch: v.pitch as u8, velocity: v.velocity as u8, state: v.next_status };
        let event = AdvanceResult::Event { position: v.samples_remaining as usize, note };
        match v.next_status {
            NoteState::On => if v.pitch > v.final_pitch {
                (SequencerView { samples_remaining: 0, ..v }, AdvanceResult::SequenceComplete)
            } else {
                (
                    SequencerView {
                        samples_remaining: v.length,
                        next_status: NoteState::Off,
                        ..v
                    },
                    event,
                )
            },
            NoteState::Off => (after_release(v), event),
        }
    }
}

/// Steps through a sweep of notes, one sample frame or more at a time.
#[derive(Debug)]
pub struct Sequencer {
    length: usize,
    gap: usize,
    pitch: u16,
    pitch_step: u8,
    final_pitch: u8,
    velocity: u8,
    velocity_step: u8,
    round_robin: u8,
    round_robin_count: u8,
    samples_remaining: usize,
    next_status: NoteState,
}

impl View for Sequencer {
    type V = SequencerView;

    closed spec fn view(&self) -> SequencerView {
        SequencerView {
            length: self.length as int,
            gap: self.gap as int,
            pitch: self.pitch as int,
            pitch_step: self.pitch_step as int,
            final_pitch: self.final_pitch as int,
            velocity: self.velocity as int,
            velocity_step: self.velocity_step as int,
            round_robin: self.round_robin as int,
            round_robin_count: self.round_robin_count as int,
            samples_remaining: self.samples_remaining as int,
            next_status: self.next_status,
        }
    }
}

fn samples_for(span: Span, sample_rate: u32) -> (r: usize)
    ensures
        r == span_samples(span.nanos as int, sample_rate as int),
{
    let a = span.nanos as u128;
    let b = sample_rate as u128;
    assert(a * b <= u64::MAX as int * u32::MAX as int) by (nonlinear_arith)
        requires
            a <= u64::MAX,
            b <= u32::MAX,
    ;
    let s = a * b / 1_000_000_000;
    if s > usize::MAX as u128 {
        usize::MAX
    } else {
        s as usize
    }
}

impl Sequencer {
    /// The states a sequencer can be in.
    pub open spec fn wf(&self) -> bool {
        view_wf(self@)
    }

    /// A sequencer for the sweep `config` at `sample_rate` samples per second.
    ///
    /// It fails if either end of the note range is above 127, or if there are more
    /// than 128 velocity layers.
    pub fn new(config: Config, sample_rate: u32) -> (r: Result<Sequencer, SequencerError>)
        requires
            config.step >= 1,
            config.velocity_levels >= 1,
            config.round_robins >= 1,
        ensures
            config.notes@.start > 127 ==> r == Err::<Sequencer, SequencerError>(
                SequencerError::StartNote(OutOfBounds { value: config.notes@.start, max: 127 }),
            ),
            config.notes@.start <= 127 && config.notes@.end > 127 ==> r == Err::<
                Sequencer,
                SequencerError,
            >(SequencerError::EndNote(OutOfBounds { value: config.notes@.end, max: 127 })),
            config.notes@.start <= 127 && config.notes@.end <= 127 && config.velocity_levels
                > 128 ==> r == Err::<Sequencer, SequencerError>(
                SequencerError::VelocityLevels(config.velocity_levels),
            ),
            r is Ok <==> config.notes@.start <= 127 && config.notes@.end <= 127
                && config.velocity_levels <= 128,
            r is Ok ==> ({
                let s = r->Ok_0;
                &&& s.wf()
                &&& s@.length == span_samples(config.length.nanos as int, sample_rate as int)
                &&& s@.gap == span_samples(config.gap.nanos as int, sample_rate as int)
                &&& s@.pitch == config.notes@.start
                &&& s@.pitch_step == config.step
                &&& s@.final_pitch == config.notes@.end
                &&& s@.velocity == 127
                &&& s@.velocity_step == velocity_step_for(config.velocity_levels as int)
                &&& s@.round_robin == 0
                &&& s@.round_robin_count == config.round_robins
                &&& s@.samples_remaining == 0
                &&& s@.next_status == NoteState::On
            }),
    {
        let start = *config.notes.start();
        let end = *config.notes.end();
        if start > 127 {
            return Err(SequencerError::StartNote(OutOfBounds::new(start, 127)));
        }
        if end > 127 {
            return Err(SequencerError::EndNote(OutOfBounds::new(end, 127)));
        }
        let levels = config.velocity_levels;
        if levels > 128 {
            return Err(SequencerError::VelocityLevels(levels));
        }
        let velocity_step = (127 + levels) / levels;
        assert(velocity_step <= 128) by (nonlinear_arith)
            requires
                velocity_step == (127 + levels as int) / levels as int,
                1 <= levels <= 128,
        ;
        assert(velocity_step >= 1) by (nonlinear_arith)
            requires
                velocity_step == (127 + levels as int) / levels as int,
                1 <= levels <= 128,
        ;
        Ok(Sequencer {
            length: samples_for(config.length, sample_rate),
            gap: samples_for(config.gap, sample_rate),
            pitch: start as u16,
            pitch_step: config.step,
            final_pitch: end,
            velocity: 127,
            velocity_step,
            round_robin: 0,
            round_robin_count: config.round_robins,
            samples_remaining: 0,
            next_status: NoteState::On,
        })
    }

    /// How long each note is held and each gap lasts, in samples.
    pub fn timing(&self) -> (r: (usize, usize))
        ensures
            r.0 == self@.length,
            r.1 == self@.gap,
    {
        (self.length, self.gap)
    }

    /// Lets up to `num_frames` frames elapse.
    ///
    /// When the counter to the next event is at least `num_frames`, all of them elapse
    /// and nothing happens. Otherwise the next event is returned with the number of
    /// frames that elapsed before it, and the sequencer moves past that event only.
    /// A note-on above the last note ends the sweep instead.
    pub fn advance(&mut self, num_frames: usize) -> (r: AdvanceResult)
        requires
            old(self).wf(),
        ensures
            final(self).wf(),
            (final(self)@, r) == advance_model(old(self)@, num_frames as int),
    {
        if num_frames <= self.samples_remaining {
            self.samples_remaining = self.samples_remaining - num_frames;
            return AdvanceResult::NoEventsInFrame;
        }
        let position = self.samples_remaining;
        self.samples_remaining = 0;
        match self.next_status {
            NoteState::On => {
                if self.pitch > self.final_pitch as u16 {
                    return AdvanceResult::SequenceComplete;
                }
                let note = Note {
                    pitch: self.pitch as u8,
                    velocity: self.velocity,
                    state: NoteState::On,
                };
                self.samples_remaining = self.length;
                self.next_status = NoteState::Off;
                AdvanceResult::Event { position, note }
            },
            NoteState::Off => {
                let note = Note {
                    pitch: self.pitch as u8,
                    velocity: self.velocity,
                    state: NoteState::Off,
                };
                self.samples_remaining = self.gap;
                self.next_status = NoteState::On;
                self.round_robin = self.round_robin + 1;
                if self.round_robin == self.round_robin_count {
                    self.round_robin = 0;
                    if self.velocity >= self.velocity_step {
                        self.velocity = self.velocity - self.velocity_step;
                    } else {
                        self.velocity = 127;
                        self.pitch = self.pitch + self.pitch_step as u16;
                    }
                }
                AdvanceResult::Event { position, note }
            },
        }
    }
}

} // verus!

verus! {

/// The number of velocity layers that a velocity step gives: 127, 127 - step, ...
/// down to the last one at or above zero.
pub open spec fn layers(velocity_step: int) -> int {
    127int / velocity_step + 1
}

/// The number of notes from `start` to `end` by `step`, both ends included.
pub open spec fn pitches_visited(start: int, end: int, step: int) -> int {
    if start <= end {
        (end - start) / step + 1
    } else {
        0
    }
}

/// The number of note-on events that a sequencer in state `v` has yet to emit.
pub open spec fn ons_left(v: SequencerView) -> int {
    if v.next_status == NoteState::On && v.pitch > v.final_pitch {
        0
    } else {
        let takes = if v.next_status == NoteState::On {
            v.round_robin_count - v.round_robin
        } else {
            v.round_robin_count - v.round_robin - 1
        };
        takes + (v.velocity / v.velocity_step) * v.round_robin_count + ((v.final_pitch - v.pitch)
            / v.pitch_step) * layers(v.velocity_step) * v.round_robin_count
    }
}

/// The number of events, note-on and note-off, that a sequencer in state `v` has yet
/// to emit.
pub open spec fn events_left(v: SequencerView) -> int {
    2 * ons_left(v) + if v.next_status == NoteState::Off {
        1int
    } else {
        0int
    }
}

proof fn lemma_div_less_one(a: int, b: int)
    requires
        a >= b > 0,
    ensures
        (a - b) / b == a / b - 1,
        a / b >= 1,
{
    vstd::arithmetic::div_mod::lemma_fundamental_div_mod(a, b);
    vstd::arithmetic::div_mod::lemma_mod_bound(a, b);
    assert(a - b == (a / b - 1) * b + a % b) by (nonlinear_arith)
        requires
            a == b * (a / b) + a % b,
    ;
    vstd::arithmetic::div_mod::lemma_fundamental_div_mod_converse(a - b, b, a / b - 1, a % b);
    if a / b < 1 {
        assert(a / b <= 0);
        assert(b * (a / b) <= 0) by (nonlinear_arith)
            requires
                b > 0,
                a / b <= 0,
        ;
    }
}

proof fn lemma_ons_left_nonneg(v: SequencerView)
    requires
        view_wf(v),
    ensures
        ons_left(v) >= 0,
        v.next_status == NoteState::Off ==> ons_left(v) >= 0,
{
    if !(v.next_status == NoteState::On && v.pitch > v.final_pitch) {
        let q = v.velocity / v.velocity_step;
        let p = (v.final_pitch - v.pitch) / v.pitch_step;
        let l = layers(v.velocity_step);
        let c = v.round_robin_count;
        assert(q >= 0 && l >= 1);
        if v.final_pitch >= v.pitch {
            assert(p >= 0);
        } else {
            assert(v.next_status == NoteState::On);
        }
        assert(q * c >= 0) by (nonlinear_arith)
            requires
                q >= 0,
                c >= 0,
        ;
        assert(p * l * c >= 0) by (nonlinear_arith)
            requires
                p >= 0,
                l >= 0,
                c >= 0,
        ;
    }
}

/// Each call to `advance` that emits an event uses up exactly one of the events left,
/// and a note-on one of the note-ons left; the sweep completes only when none are left,
/// and it does complete once none are left and the frames given pass the counter.
/// With `events_left` as a measure, any sweep ends after finitely many events.
pub proof fn lemma_advance_counts(v: SequencerView, n: int)
    requires
        view_wf(v),
        0 <= n <= usize::MAX,
    ensures
        ({
            let (w, r) = advance_model(v, n);
            &&& view_wf(w)
            &&& ons_left(v) >= 0
            &&& r is NoEventsInFrame ==> ons_left(w) == ons_left(v) && events_left(w)
                == events_left(v)
            &&& r is Event ==> events_left(w) == events_left(v) - 1
            &&& r is Event && r->note.state == NoteState::On ==> ons_left(w) == ons_left(v) - 1
            &&& r is Event && r->note.state == NoteState::Off ==> ons_left(w) == ons_left(v)
            &&& r is SequenceComplete ==> ons_left(v) == 0 && events_left(v) == 0 && events_left(
                w,
            ) == 0
            &&& events_left(v) == 0 && n > v.samples_remaining ==> r is SequenceComplete
        }),
{
    lemma_ons_left_nonneg(v);
    let (w, r) = advance_model(v, n);
    let c = v.round_robin_count;
    let s = v.velocity_step;
    let l = layers(s);
    if n > v.samples_remaining && v.next_status == NoteState::Off {
        let rr = v.round_robin + 1;
        let p = (v.final_pitch - v.pitch) / v.pitch_step;
        assert(p >= 0);
        if rr < c {
        } else if v.velocity >= s {
            lemma_div_less_one(v.velocity, s);
            let q = v.velocity / s;
            assert(c + (q - 1) * c == q * c) by (nonlinear_arith);
        } else {
            vstd::arithmetic::div_mod::lemma_basic_div(v.velocity, s);
            assert(v.velocity / s == 0);
            let np = v.pitch + v.pitch_step;
            if np > v.final_pitch {
                vstd::arithmetic::div_mod::lemma_basic_div(v.final_pitch - v.pitch, v.pitch_step);
                assert(p == 0);
                assert(0 * c + 0 * l * c == 0) by (nonlinear_arith);
                assert(ons_left(w) == ons_left(v));
            } else {
                lemma_div_less_one(v.final_pitch - v.pitch, v.pitch_step);
                assert((v.final_pitch - np) / v.pitch_step == p - 1);
                assert(c + (127int / s) * c + (p - 1) * l * c == p * l * c) by (nonlinear_arith)
                    requires
                        l == 127int / s + 1,
                ;
                assert(0 * c == 0) by (nonlinear_arith);
                assert(ons_left(w) == ons_left(v));
            }
        }
        lemma_ons_left_nonneg(w);
    }
    if r is Event {
        if v.next_status == NoteState::On {
            assert(ons_left(w) == ons_left(v) - 1);
            assert(w.next_status == NoteState::Off);
            assert(events_left(w) == 2 * ons_left(w) + 1);
            assert(events_left(v) == 2 * ons_left(v));
            assert(events_left(w) == events_left(v) - 1);
        } else {
            assert(w.next_status == NoteState::On);
            assert(events_left(w) == 2 * ons_left(w));
            assert(events_left(v) == 2 * ons_left(v) + 1);
            assert(r->note.state == NoteState::Off);
            assert(ons_left(w) == ons_left(v));
            assert(events_left(w) == events_left(v) - 1);
        }
    }
}

/// The number of note-ons that a new sequencer emits, and so the number of takes in a
/// sweep: notes visited, times velocity layers, times takes at each.
pub proof fn lemma_sweep_ons(v: SequencerView, start: int, end: int, step: int, takes: int)
    requires
        view_wf(v),
        v.pitch == start,
        v.final_pitch == end,
        v.pitch_step == step,
        v.velocity == 127,
        v.round_robin == 0,
        v.round_robin_count == takes,
        v.next_status == NoteState::On,
    ensures
        ons_left(v) == pitches_visited(start, end, step) * layers(v.velocity_step) * takes,
{
    let s = v.velocity_step;
    let l = layers(s);
    vstd::arithmetic::div_mod::lemma_basic_div(127, 128);
    if start <= end {
        let p = (end - start) / step;
        assert(v.final_pitch - v.pitch == end - start);
        assert(ons_left(v) == takes + (127int / s) * takes + p * l * takes);
        assert(pitches_visited(start, end, step) == p + 1);
        assert(takes + (127int / s) * takes + p * l * takes == (p + 1) * l * takes)
            by (nonlinear_arith)
            requires
                l == 127int / s + 1,
        ;
    } else {
        assert(0 * l * takes == 0) by (nonlinear_arith);
    }
}

/// With `levels` velocity layers, a new sequencer emits notes visited times `levels`
/// times takes note-ons, whenever the velocity step `ceil(128 / levels)` gives exactly
/// `levels` layers (as for 1 to 8, 10, 11, 13, 16, 22, 26, 32, 43, 64 or 128 layers).
pub proof fn lemma_sweep_ons_by_levels(
    v: SequencerView,
    start: int,
    end: int,
    step: int,
    levels: int,
    takes: int,
)
    requires
        view_wf(v),
        v.pitch == start,
        v.final_pitch == end,
        v.pitch_step == step,
        v.velocity == 127,
        v.velocity_step == velocity_step_for(levels),
        v.round_robin == 0,
        v.round_robin_count == takes,
        v.next_status == NoteState::On,
        1 <= levels <= 128,
        layers(velocity_step_for(levels)) == levels,
    ensures
        ons_left(v) == pitches_visited(start, end, step) * levels * takes,
{
    lemma_sweep_ons(v, start, end, step, takes);
}

/// The state and the results after calling `advance` with each of `budgets` in turn.
pub open spec fn run_model(v: SequencerView, budgets: Seq<int>) -> (SequencerView, Seq<AdvanceResult>)
    decreases budgets.len(),
{
    if budgets.len() == 0 {
        (v, Seq::empty())
    } else {
        let (w, rs) = run_model(v, budgets.drop_last());
        let (x, r) = advance_model(w, budgets.last());
        (x, rs.push(r))
    }
}

/// The number of note-on events among `rs`.
pub open spec fn count_ons(rs: Seq<AdvanceResult>) -> int
    decreases rs.len(),
{
    if rs.len() == 0 {
        0
    } else {
        count_ons(rs.drop_last()) + if rs.last() is Event && rs.last()->note.state
            == NoteState::On {
            1int
        } else {
            0int
        }
    }
}

/// Over any run of `advance` calls, the note-ons emitted plus those left make up those
/// left at the start; so a run that ends in `SequenceComplete` has emitted exactly
/// `ons_left` of its first state, which for a new sequencer is notes visited times
/// velocity layers times takes ([`lemma_sweep_ons`]).
pub proof fn lemma_run_ons(v: SequencerView, budgets: Seq<int>)
    requires
        view_wf(v),
        forall|i: int| 0 <= i < budgets.len() ==> 0 <= #[trigger] budgets[i] <= usize::MAX,
    ensures
        view_wf(run_model(v, budgets).0),
        count_ons(run_model(v, budgets).1) + ons_left(run_model(v, budgets).0) == ons_left(v),
        run_model(v, budgets).1.len() == budgets.len(),
        budgets.len() > 0 && run_model(v, budgets).1.last() is SequenceComplete ==> count_ons(
            run_model(v, budgets).1,
        ) == ons_left(v),
    decreases budgets.len(),
{
    if budgets.len() > 0 {
        let pre = budgets.drop_last();
        lemma_run_ons(v, pre);
        let (w, rs) = run_model(v, pre);
        lemma_advance_counts(w, budgets.last());
        let (x, r) = advance_model(w, budgets.last());
        assert(rs.push(r).drop_last() =~= rs);
        if r is SequenceComplete {
            lemma_advance_counts(x, 1);
        }
    }
}

} // verus!

verus! {

/// `a + b` wrapped around past the largest `usize`.
pub open spec fn wrap_add(a: int, b: int) -> int {
    if a + b > usize::MAX {
        a + b - usize::MAX - 1
    } else {
        a + b
    }
}

/// All the events of a sweep, each with its sample position counted from the start.
///
/// The position wraps around to 0 past the largest `usize`.
#[derive(Debug)]
pub struct SequencerIntoIter {
    sequencer: Sequencer,
    position: usize,
}

impl Sequencer {
    /// The events of the sweep from here on, positioned from this point.
    pub fn into_iter(self) -> (r: SequencerIntoIter)
        ensures
            r.state() == self@,
            r.position() == 0,
    {
        SequencerIntoIter { sequencer: self, position: 0 }
    }
}

impl SequencerIntoIter {
    /// The state of the underlying sequencer.
    pub closed spec fn state(&self) -> SequencerView {
        self.sequencer@
    }

    /// The position of the last event emitted.
    pub closed spec fn position(&self) -> int {
        self.position as int
    }

    /// The states this can be in: every note and gap shorter than the longest `usize`
    /// in samples, so that each step reaches the next event.
    pub open spec fn wf(&self) -> bool {
        &&& view_wf(self.state())
        &&& self.state().length < usize::MAX
        &&& self.state().gap < usize::MAX
        &&& self.state().samples_remaining < usize::MAX
    }

    /// The next event and its absolute position, or `None` once the sweep is over.
    pub fn next(&mut self) -> (r: Option<(usize, Note)>)
        requires
            old(self).wf(),
        ensures
            final(self).wf(),
            ({
                let (w, a) = advance_model(old(self).state(), usize::MAX as int);
                &&& final(self).state() == w
                &&& a is SequenceComplete ==> r is None && final(self).position() == old(
                    self,
                ).position()
                &&& a is Event ==> final(self).position() == wrap_add(
                    old(self).position(),
                    a->position as int,
                ) && r == Some((final(self).position() as usize, a->note))
                &&& !(a is NoEventsInFrame)
            }),
    {
        match self.sequencer.advance(usize::MAX) {
            AdvanceResult::SequenceComplete => None,
            AdvanceResult::Event { position, note } => {
                if position > usize::MAX - self.position {
                    self.position = position - (usize::MAX - self.position) - 1;
                } else {
                    self.position = self.position + position;
                }
                Some((self.position, note))
            },
            AdvanceResult::NoEventsInFrame => {
                assert(false);
                None
            },
        }
    }
}

} // verus!
