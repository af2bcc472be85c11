use vstd::prelude::*;

use crate::midi::{decimal, decimal_text, pitch_name, Pitch};

verus! {

/// How a player picks among samples whose zones overlap.
#[derive(Debug, Clone, Copy, PartialEq, Eq, Structural)]
pub enum ZoneLogic {
    /// Play all of them
    AlwaysPlay,
    /// Take turns
    RoundRobin,
}

/// How a sample loops.
#[derive(Debug, Clone, Copy, PartialEq, Eq, Structural)]
pub enum LoopMode {
    /// No loop
    Off,
    /// Loop forward
    Loop,
    /// Loop forward and back
    PingPong,
}

/// A range of values (keys or velocities) that a sample answers to, with fades.
#[derive(Debug, Clone, Copy, PartialEq, Eq, Structural)]
pub struct ZoneInfo {
    pub low: Option<u8>,
    pub high: Option<u8>,
    pub low_fade: Option<u8>,
    pub high_fade: Option<u8>,
}

impl ZoneInfo {
    /// A zone with no bounds and no fades.
    pub fn new() -> (r: ZoneInfo)
        ensures
            r.low is None && r.high is None && r.low_fade is None && r.high_fade is None,
    {
        ZoneInfo { low: None, high: None, low_fade: None, high_fade: None }
    }

    /// This zone with lower bound `low`.
    pub fn with_low(self, low: Option<u8>) -> (r: ZoneInfo)
        ensures
            r == (ZoneInfo { low, ..self }),
    {
        ZoneInfo { low, ..self }
    }

    /// This zone with upper bound `high`.
    pub fn with_high(self, high: Option<u8>) -> (r: ZoneInfo)
        ensures
            r == (ZoneInfo { high, ..self }),
    {
        ZoneInfo { high, ..self }
    }

    /// This zone with fade at the lower end `low_fade`.
    pub fn with_low_fade(self, low_fade: Option<u8>) -> (r: ZoneInfo)
        ensures
            r == (ZoneInfo { low_fade, ..self }),
    {
        ZoneInfo { low_fade, ..self }
    }

    /// This zone with fade at the upper end `high_fade`.
    pub fn with_high_fade(self, high_fade: Option<u8>) -> (r: ZoneInfo)
        ensures
            r == (ZoneInfo { high_fade, ..self }),
    {
        ZoneInfo { high_fade, ..self }
    }

    /// The lower bound.
    pub fn low(&self) -> (r: Option<u8>)
        ensures
            r == self.low,
    {
        self.low
    }

    /// The upper bound.
    pub fn high(&self) -> (r: Option<u8>)
        ensures
            r == self.high,
    {
        self.high
    }

    /// The fade at the lower end.
    pub fn low_fade(&self) -> (r: Option<u8>)
        ensures
            r == self.low_fade,
    {
        self.low_fade
    }

    /// The fade at the upper end.
    pub fn high_fade(&self) -> (r: Option<u8>)
        ensures
            r == self.high_fade,
    {
        self.high_fade
    }
}

/// The place of the last pitch before `j + 1` in `p` that is lower than `p[idx]`.
pub open spec fn lower_before(p: Seq<u8>, idx: int, j: int) -> Option<int>
    decreases j + 1,
{
    if j < 0 {
        None
    } else if p[j] < p[idx] {
        Some(j)
    } else {
        lower_before(p, idx, j - 1)
    }
}

/// The place of the first pitch from `j` on in `p` that is higher than `p[idx]`.
pub open spec fn higher_from(p: Seq<u8>, idx: int, j: int) -> Option<int>
    decreases p.len() - j,
{
    if j >= p.len() || j < 0 {
        None
    } else if p[j] > p[idx] {
        Some(j)
    } else {
        higher_from(p, idx, j + 1)
    }
}

/// The lowest key of the sample at `idx`: halfway down to the last lower pitch before
/// it, if there is one.
pub open spec fn key_low(p: Seq<u8>, idx: int) -> Option<u8> {
    match lower_before(p, idx, idx - 1) {
        Some(j) => Some(((p[idx] - p[j]) / 2 + p[j]) as u8),
        None => None,
    }
}

/// The highest key of the sample at `idx`: one below halfway up to the first higher
/// pitch after it, but never below its own pitch, if there is one.
pub open spec fn key_high(p: Seq<u8>, idx: int) -> Option<u8> {
    match higher_from(p, idx, idx) {
        Some(j) => {
            let mid = (p[j] - p[idx]) / 2 + p[idx];
            let below = if mid >= 1 {
                mid - 1
            } else {
                0
            };
            Some(
                if below >= p[idx] {
                    below as u8
                } else {
                    p[idx]
                },
            )
        },
        None => None,
    }
}

/// The key range of the sample at `idx` among samples at the pitches `pitches`,
/// in the order they were recorded: `(low, high)` as [`key_low`] and [`key_high`].
pub fn key_range(pitches: &[u8], idx: usize) -> (r: (Option<u8>, Option<u8>))
    requires
        idx < pitches@.len(),
    ensures
        r == (key_low(pitches@, idx as int), key_high(pitches@, idx as int)),
{
    let note = pitches[idx];
    let mut low: Option<u8> = None;
    let mut j: usize = idx;
    while j > 0
        invariant
            j <= idx < pitches@.len(),
            note == pitches@[idx as int],
            low is None ==> lower_before(pitches@, idx as int, idx - 1) == lower_before(
                pitches@,
                idx as int,
                j - 1,
            ),
            low is Some ==> low == key_low(pitches@, idx as int),
        decreases j,
    {
        if low.is_none() && pitches[j - 1] < note {
            let prev = pitches[j - 1];
            low = Some((note - prev) / 2 + prev);
        }
        j = j - 1;
    }
    let mut high: Option<u8> = None;
    let mut k: usize = idx;
    while k < pitches.len()
        invariant
            idx <= k <= pitches@.len(),
            note == pitches@[idx as int],
            high is None ==> higher_from(pitches@, idx as int, idx as int) == higher_from(
                pitches@,
                idx as int,
                k as int,
            ),
            high is Some ==> high == key_high(pitches@, idx as int),
        decreases pitches@.len() - k,
    {
        if high.is_none() && pitches[k] > note {
            let next = pitches[k];
            let mid = (next - note) / 2 + note;
            let below = if mid >= 1 {
                mid - 1
            } else {
                0
            };
            high = Some(
                if below >= note {
                    below
                } else {
                    note
                },
            );
        }
        k = k + 1;
    }
    (low, high)
}

/// The place of the first sample from `j` on at the same pitch as the one at `idx`
/// and with a lower velocity.
pub open spec fn softer_from(p: Seq<u8>, v: Seq<Option<u8>>, idx: int, j: int) -> Option<int>
    decreases p.len() - j,
{
    if j >= p.len() || j < 0 {
        None
    } else if p[j] == p[idx] && v[j] is Some && v[idx] is Some && v[j]->0 < v[idx]->0 {
        Some(j)
    } else {
        softer_from(p, v, idx, j + 1)
    }
}

/// The velocity zone of the sample at `idx`: from one above the next softer layer
/// recorded at its pitch up to its own velocity, when it has a velocity and such a
/// layer follows; none otherwise (it then answers to every velocity left below).
pub open spec fn velocity_zone(p: Seq<u8>, v: Seq<Option<u8>>, idx: int) -> Option<ZoneInfo> {
    match softer_from(p, v, idx, idx) {
        Some(j) => Some(
            ZoneInfo {
                low: Some((v[j]->0 + 1) as u8),
                high: v[idx],
                low_fade: None,
                high_fade: None,
            },
        ),
        None => None,
    }
}

/// The velocity zone of the sample at `idx` (see [`velocity_zone`]), among samples
/// at the pitches `pitches` and velocities `velocities`, in the order they were
/// recorded.
pub fn velocity_range(pitches: &[u8], velocities: &[Option<u8>], idx: usize) -> (r: Option<
    ZoneInfo,
>)
    requires
        pitches@.len() == velocities@.len(),
        idx < pitches@.len(),
    ensures
        r == velocity_zone(pitches@, velocities@, idx as int),
{
    let mut k: usize = idx;
    while k < pitches.len()
        invariant
            idx <= k <= pitches@.len() == velocities@.len(),
            softer_from(pitches@, velocities@, idx as int, idx as int) == softer_from(
                pitches@,
                velocities@,
                idx as int,
                k as int,
            ),
        decreases pitches@.len() - k,
    {
        if pitches[k] == pitches[idx] {
            if let (Some(lower), Some(own)) = (velocities[k], velocities[idx]) {
                if lower < own {
                    return Some(
                        ZoneInfo {
                            low: Some(lower + 1),
                            high: velocities[idx],
                            low_fade: None,
                            high_fade: None,
                        },
                    );
                }
            }
        }
        k = k + 1;
    }
    None
}

} // verus!

verus! {

/// A group of samples, for display only.
#[derive(Debug, Clone)]
pub struct Group {
    pub name: String,
    pub color: Option<[u8; 3]>,
}

impl Group {
    /// A group with no name and no color.
    pub fn new() -> (r: Group)
        ensures
            r.name@ == Seq::<char>::empty(),
            r.color is None,
    {
        Group { name: String::new(), color: None }
    }

    /// This group named `name`.
    pub fn with_name(self, name: String) -> (r: Group)
        ensures
            r.name@ == name@,
            r.color == self.color,
    {
        Group { name, ..self }
    }

    /// This group shown in the color `color` (red, green, blue).
    pub fn with_color(self, color: Option<[u8; 3]>) -> (r: Group)
        ensures
            r.name@ == self.name@,
            r.color == color,
    {
        Group { color, ..self }
    }

    /// The name of the group.
    pub fn name(&self) -> (r: &str)
        ensures
            r@ == self.name@,
    {
        self.name.as_str()
    }

    /// The color of the group, if any.
    pub fn color(&self) -> (r: Option<[u8; 3]>)
        ensures
            r == self.color,
    {
        self.color
    }
}

/// The name of a recording: `[<prefix>_]<pitch name>[_V<velocity>][_RR<take + 1>].wav`.
pub open spec fn file_name_text(
    prefix: Option<Seq<char>>,
    pitch: int,
    velocity: Option<u8>,
    round_robin: Option<u8>,
) -> Seq<char> {
    let head = match prefix {
        Some(p) => p + seq!['_'],
        None => Seq::empty(),
    };
    let vel = match velocity {
        Some(v) => seq!['_', 'V'] + decimal_text(v as nat),
        None => Seq::empty(),
    };
    let rr = match round_robin {
        Some(r) => seq!['_', 'R', 'R'] + decimal_text((r + 1) as nat),
        None => Seq::empty(),
    };
    head + pitch_name(pitch) + vel + rr + seq!['.', 'w', 'a', 'v']
}

/// A recording's file, named after its note.
#[derive(Debug, Clone)]
pub struct NamedFile {
    pub prefix: Option<String>,
    pub pitch: Pitch,
    pub velocity: Option<u8>,
    pub round_robin: Option<u8>,
}

impl NamedFile {
    /// The prefix as text, if any.
    pub open spec fn prefix_text(&self) -> Option<Seq<char>> {
        match self.prefix {
            Some(p) => Some(p@),
            None => None,
        }
    }

    /// The file name, as [`file_name_text`] gives it.
    pub fn file_name(&self) -> (r: String)
        ensures
            r@ == file_name_text(
                self.prefix_text(),
                self.pitch.spec_number() as int,
                self.velocity,
                self.round_robin,
            ),
    {
        let mut r = String::new();
        if let Some(p) = &self.prefix {
            r.append(p.as_str());
            proof { reveal_strlit("_"); }
            r.append("_");
        }
        let name = self.pitch.name();
        r.append(name.as_str());
        if let Some(v) = self.velocity {
            proof { reveal_strlit("_V"); }
            r.append("_V");
            let d = decimal(v as u16);
            r.append(d.as_str());
        }
        if let Some(rr) = self.round_robin {
            proof { reveal_strlit("_RR"); }
            r.append("_RR");
            let d = decimal(rr as u16 + 1);
            r.append(d.as_str());
        }
        proof { reveal_strlit(".wav"); }
        r.append(".wav");
        r
    }
}

} // verus!

