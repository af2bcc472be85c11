use vstd::prelude::*;
use vstd::std_specs::iter::IteratorSpec;

verus! {

broadcast use {vstd::string::axiom_spec_iter, vstd::string::next_postcondition};

/// The characters of `s`, one element each.
pub fn chars_of(s: &str) -> (r: Vec<char>)
    ensures
        r@ == s@,
{
    let mut it = s.chars();
    let mut out: Vec<char> = Vec::new();
    loop
        invariant
            it.remaining() == s@.skip(out@.len() as int),
            out@ == s@.take(out@.len() as int),
            out@.len() <= s@.len(),
        decreases s@.len() - out@.len(),
    {
        match it.next() {
            Some(c) => {
                assert(s@.skip(out@.len() as int).len() > 0);
                out.push(c);
                assert(out@ =~= s@.take(out@.len() as int));
                assert(it.remaining() =~= s@.skip(out@.len() as int));
            },
            None => {
                assert(out@ =~= s@);
                return out;
            },
        }
    }
}

} // verus!

verus! {

/// A value larger than the greatest one allowed.
#[derive(Debug, Clone, Copy, PartialEq, Eq, Structural)]
pub struct OutOfBounds {
    /// The value that was given
    pub value: u8,
    /// The greatest value allowed
    pub max: u8,
}

impl OutOfBounds {
    pub(crate) fn new(value: u8, max: u8) -> (r: Self)
        ensures
            r.value == value,
            r.max == max,
    {
        OutOfBounds { value, max }
    }

    /// The value that was larger than the limit.
    pub fn value(&self) -> (r: u8)
        ensures
            r == self.value,
    {
        self.value
    }

    /// The greatest value allowed.
    pub fn limit(&self) -> (r: u8)
        ensures
            r == self.max,
    {
        self.max
    }

    /// "Value <value> is larger than maximum <max>."
    pub fn message(&self) -> (r: String)
        ensures
            r@ == out_of_bounds_text(self.value, self.max),
    {
        let mut r = String::from_str("Value ");
        let v = decimal(self.value as u16);
        r.append(v.as_str());
        r.append(" is larger than maximum ");
        let m = decimal(self.max as u16);
        r.append(m.as_str());
        r.append(".");
        r
    }
}

/// The text of an out-of-range value: "Value <value> is larger than maximum <max>.".
pub open spec fn out_of_bounds_text(value: u8, max: u8) -> Seq<char> {
    "Value "@ + decimal_text(value as nat) + " is larger than maximum "@ + decimal_text(max as nat)
        + "."@
}

/// A MIDI channel number greater than 15.
pub type InvalidMidiChannel = OutOfBounds;

/// A MIDI note number greater than 127.
pub type InvalidMidiNote = OutOfBounds;

/// Whether a note event starts or releases a note.
#[derive(Debug, Clone, Copy, PartialEq, Eq, Structural)]
pub enum NoteState {
    /// Note-on (status `0x90`)
    On,
    /// Note-off (status `0x80`)
    Off,
}

/// The status byte of a note message in state `st` on channel `ch`.
pub open spec fn status_byte(st: NoteState, ch: u8) -> u8 {
    match st {
        NoteState::On => (0x90 + ch) as u8,
        NoteState::Off => (0x80 + ch) as u8,
    }
}

/// A MIDI channel, zero based (0 to 15).
#[derive(Debug, Clone, Copy, PartialEq, Eq, Structural)]
pub struct Channel(u8);

impl Channel {
    #[verifier::type_invariant]
    spec fn inv(self) -> bool {
        self.0 <= 15
    }

    /// The channel number as a value.
    pub closed spec fn spec_number(self) -> u8 {
        self.0
    }

    /// A channel, if `channel` is at most 15.
    pub fn new(channel: u8) -> (r: Result<Channel, InvalidMidiChannel>)
        ensures
            channel <= 15 <==> r is Ok,
            r is Ok ==> r->Ok_0.spec_number() == channel,
            r is Err ==> r->Err_0 == (OutOfBounds { value: channel, max: 15 }),
    {
        if channel > 15 {
            return Err(OutOfBounds::new(channel, 15));
        }
        Ok(Channel(channel))
    }

    /// The zero-based channel number.
    pub fn number(&self) -> (r: u8)
        ensures
            r == self.spec_number(),
            r <= 15,
    {
        proof {
            use_type_invariant(self);
        }
        self.0
    }

    /// The "all sound off" controller message for this channel.
    pub fn all_sound_off(&self) -> (r: [u8; 3])
        ensures
            r@ == seq![(0xB0 + self.spec_number()) as u8, 120u8, 0u8],
            self.spec_number() <= 15,
    {
        proof {
            use_type_invariant(self);
        }
        let c = self.0;
        let status = 0xB0u8 | c;
        assert(c <= 15 ==> (0xB0u8 | c) == 0xB0u8 + c) by (bit_vector);
        let r = [status, 120u8, 0u8];
        assert(r@ =~= seq![(0xB0 + self.spec_number()) as u8, 120u8, 0u8]);
        r
    }
}

impl NoteState {
    /// The status byte of a note message of this kind on `channel`.
    pub fn as_midi_message(&self, channel: Channel) -> (r: u8)
        ensures
            r == status_byte(*self, channel.spec_number()),
    {
        let c = channel.number();
        match self {
            NoteState::On => {
                assert(c <= 15 ==> (0x90u8 | c) == 0x90u8 + c) by (bit_vector);
                0x90u8 | c
            },
            NoteState::Off => {
                assert(c <= 15 ==> (0x80u8 | c) == 0x80u8 + c) by (bit_vector);
                0x80u8 | c
            },
        }
    }
}

/// A note event: pitch and velocity as MIDI numbers, and whether it starts or ends.
#[derive(Debug, Clone, Copy, PartialEq, Eq, Structural)]
pub struct Note {
    /// Pitch, as a MIDI note number
    pub pitch: u8,
    /// Velocity, up to 127
    pub velocity: u8,
    /// Whether the note starts or ends here
    pub state: NoteState,
}

impl Note {
    /// A note event from its parts.
    pub fn new(pitch: Pitch, velocity: u8, state: NoteState) -> (r: Note)
        ensures
            r.pitch == pitch.spec_number(),
            r.velocity == velocity,
            r.state == state,
    {
        Note { pitch: pitch.note_number(), velocity, state }
    }

    /// The three bytes of the MIDI note message for this event on `channel`.
    pub fn as_midi_message(&self, channel: Channel) -> (r: [u8; 3])
        ensures
            r@ == seq![status_byte(self.state, channel.spec_number()), self.pitch, self.velocity],
    {
        let r = [self.state.as_midi_message(channel), self.pitch, self.velocity];
        assert(r@ =~= seq![status_byte(self.state, channel.spec_number()), self.pitch, self.velocity]);
        r
    }

    /// The pitch of the note.
    pub fn pitch(&self) -> (r: Pitch)
        requires
            self.pitch <= 127,
        ensures
            r.spec_number() == self.pitch,
    {
        Pitch(self.pitch)
    }

    /// The velocity of the note.
    pub fn velocity(&self) -> (r: u8)
        ensures
            r == self.velocity,
    {
        self.velocity
    }

    /// Whether the event starts or ends the note.
    pub fn state(&self) -> (r: NoteState)
        ensures
            r == self.state,
    {
        self.state
    }
}

/// A MIDI note number, 0 to 127.
#[derive(Debug, Clone, Copy, PartialEq, Eq, Structural, PartialOrd, Ord)]
pub struct Pitch(u8);

impl Pitch {
    #[verifier::type_invariant]
    spec fn inv(self) -> bool {
        self.0 <= 127
    }

    /// The note number as a value.
    pub closed spec fn spec_number(self) -> u8 {
        self.0
    }

    /// A pitch, if `note_number` is at most 127.
    pub fn new(note_number: u8) -> (r: Result<Pitch, InvalidMidiNote>)
        ensures
            note_number <= 127 <==> r is Ok,
            r is Ok ==> r->Ok_0.spec_number() == note_number,
            r is Err ==> r->Err_0 == (OutOfBounds { value: note_number, max: 127 }),
    {
        if note_number > 127 {
            return Err(OutOfBounds::new(note_number, 127));
        }
        Ok(Pitch(note_number))
    }

    /// The MIDI note number.
    pub fn note_number(&self) -> (r: u8)
        ensures
            r == self.spec_number(),
            r <= 127,
    {
        proof {
            use_type_invariant(self);
        }
        self.0
    }
}

} // verus!

verus! {

/// The name of the pitch class `k` (0 is C, 11 is B), sharps only.
pub open spec fn class_name(k: int) -> Seq<char> {
    if k == 0 {
        seq!['C']
    } else if k == 1 {
        seq!['C', '#']
    } else if k == 2 {
        seq!['D']
    } else if k == 3 {
        seq!['D', '#']
    } else if k == 4 {
        seq!['E']
    } else if k == 5 {
        seq!['F']
    } else if k == 6 {
        seq!['F', '#']
    } else if k == 7 {
        seq!['G']
    } else if k == 8 {
        seq!['G', '#']
    } else if k == 9 {
        seq!['A']
    } else if k == 10 {
        seq!['A', '#']
    } else {
        seq!['B']
    }
}

/// The decimal digit character of `d` (0 to 9).
pub open spec fn digit_char(d: int) -> char {
    if d == 0 {
        '0'
    } else if d == 1 {
        '1'
    } else if d == 2 {
        '2'
    } else if d == 3 {
        '3'
    } else if d == 4 {
        '4'
    } else if d == 5 {
        '5'
    } else if d == 6 {
        '6'
    } else if d == 7 {
        '7'
    } else if d == 8 {
        '8'
    } else {
        '9'
    }
}

/// The octave number `o` in decimal, for `-1 <= o <= 9`.
pub open spec fn octave_text(o: int) -> Seq<char> {
    if o < 0 {
        seq!['-', '1']
    } else {
        seq![digit_char(o)]
    }
}

/// `n` in decimal.
pub open spec fn decimal_text(n: nat) -> Seq<char>
    decreases n,
{
    if n < 10 {
        seq![digit_char(n as int)]
    } else {
        decimal_text(n / 10) + seq![digit_char((n % 10) as int)]
    }
}

/// The name of MIDI note `n`: its pitch class, then its octave `n / 12 - 1` (60 is "C4").
pub open spec fn pitch_name(n: int) -> Seq<char> {
    class_name(n % 12) + octave_text(n / 12 - 1)
}

fn digit_str(d: u16) -> (r: &'static str)
    requires
        d < 10,
    ensures
        r@ == seq![digit_char(d as int)],
{
    match d {
        0 => {
            proof { reveal_strlit("0"); }
            "0"
        },
        1 => {
            proof { reveal_strlit("1"); }
            "1"
        },
        2 => {
            proof { reveal_strlit("2"); }
            "2"
        },
        3 => {
            proof { reveal_strlit("3"); }
            "3"
        },
        4 => {
            proof { reveal_strlit("4"); }
            "4"
        },
        5 => {
            proof { reveal_strlit("5"); }
            "5"
        },
        6 => {
            proof { reveal_strlit("6"); }
            "6"
        },
        7 => {
            proof { reveal_strlit("7"); }
            "7"
        },
        8 => {
            proof { reveal_strlit("8"); }
            "8"
        },
        _ => {
            proof { reveal_strlit("9"); }
            "9"
        },
    }
}

/// `n` in decimal.
pub fn decimal(n: u16) -> (r: String)
    ensures
        r@ == decimal_text(n as nat),
    decreases n,
{
    if n < 10 {
        String::from_str(digit_str(n))
    } else {
        let mut r = decimal(n / 10);
        r.append(digit_str(n % 10));
        r
    }
}

fn class_str(k: u8) -> (r: &'static str)
    requires
        k < 12,
    ensures
        r@ == class_name(k as int),
{
    match k {
        0 => {
            proof { reveal_strlit("C"); }
            "C"
        },
        1 => {
            proof { reveal_strlit("C#"); }
            "C#"
        },
        2 => {
            proof { reveal_strlit("D"); }
            "D"
        },
        3 => {
            proof { reveal_strlit("D#"); }
            "D#"
        },
        4 => {
            proof { reveal_strlit("E"); }
            "E"
        },
        5 => {
            proof { reveal_strlit("F"); }
            "F"
        },
        6 => {
            proof { reveal_strlit("F#"); }
            "F#"
        },
        7 => {
            proof { reveal_strlit("G"); }
            "G"
        },
        8 => {
            proof { reveal_strlit("G#"); }
            "G#"
        },
        9 => {
            proof { reveal_strlit("A"); }
            "A"
        },
        10 => {
            proof { reveal_strlit("A#"); }
            "A#"
        },
        _ => {
            proof { reveal_strlit("B"); }
            "B"
        },
    }
}

fn octave_str(n: u8) -> (r: &'static str)
    requires
        n <= 127,
    ensures
        r@ == octave_text(n as int / 12 - 1),
{
    let o = n / 12;
    match o {
        0 => {
            proof { reveal_strlit("-1"); }
            "-1"
        },
        1 => {
            proof { reveal_strlit("0"); }
            "0"
        },
        2 => {
            proof { reveal_strlit("1"); }
            "1"
        },
        3 => {
            proof { reveal_strlit("2"); }
            "2"
        },
        4 => {
            proof { reveal_strlit("3"); }
            "3"
        },
        5 => {
            proof { reveal_strlit("4"); }
            "4"
        },
        6 => {
            proof { reveal_strlit("5"); }
            "5"
        },
        7 => {
            proof { reveal_strlit("6"); }
            "6"
        },
        8 => {
            proof { reveal_strlit("7"); }
            "7"
        },
        9 => {
            proof { reveal_strlit("8"); }
            "8"
        },
        _ => {
            proof { reveal_strlit("9"); }
            "9"
        },
    }
}

impl Pitch {
    /// The note name of this pitch, such as "C4" for 60 or "A#-1" for 10.
    pub fn name(&self) -> (r: String)
        ensures
            r@ == pitch_name(self.spec_number() as int),
    {
        let n = self.note_number();
        let mut r = String::from_str(class_str(n % 12));
        r.append(octave_str(n));
        r
    }
}

} // verus!

verus! {

/// Why a text could not be read as a pitch.
#[derive(Debug, Clone, Copy, PartialEq, Eq, Structural)]
pub enum ParsePitchError {
    /// The text was empty.
    Empty,
    /// The text starts with neither a number nor a letter from A to G.
    InvalidNoteName(char),
    /// The letter (given in upper case) names a note that takes no sharp.
    InvalidSharp(char),
    /// No octave number follows the letter and its sharp.
    OctaveText,
    /// The octave number is less than -1.
    OctaveNumber,
    /// The note number is larger than 127 (values past 255 are given as 255).
    OutOfRange(InvalidMidiNote),
}

/// Whether `c` is a decimal digit.
pub open spec fn is_digit(c: char) -> bool {
    '0' <= c && c <= '9'
}

/// Whether every character of `s` is a decimal digit.
pub open spec fn all_digits(s: Seq<char>) -> bool {
    forall|i: int| 0 <= i < s.len() ==> is_digit(#[trigger] s[i])
}

/// The value of the decimal digits `s`.
pub open spec fn digits_value(s: Seq<char>) -> int
    decreases s.len(),
{
    if s.len() == 0 {
        0
    } else {
        digits_value(s.drop_last()) * 10 + (s.last() as u32 - '0' as u32)
    }
}

/// The value of `s`, when it is one or more decimal digits worth at most `limit`.
pub open spec fn magnitude(s: Seq<char>, limit: int) -> Option<int> {
    if s.len() > 0 && all_digits(s) && digits_value(s) <= limit {
        Some(digits_value(s))
    } else {
        None
    }
}

/// The value of `s` read as a `u8` in decimal: an optional `+`, then digits.
pub open spec fn u8_text(s: Seq<char>) -> Option<int> {
    if s.len() > 0 && s[0] == '+' {
        magnitude(s.drop_first(), 255)
    } else {
        magnitude(s, 255)
    }
}

/// The value of `s` read as an `i8` in decimal: an optional sign, then digits.
pub open spec fn i8_text(s: Seq<char>) -> Option<int> {
    if s.len() > 0 && s[0] == '-' {
        match magnitude(s.drop_first(), 128) {
            Some(m) => Some(-m),
            None => None,
        }
    } else if s.len() > 0 && s[0] == '+' {
        magnitude(s.drop_first(), 127)
    } else {
        magnitude(s, 127)
    }
}

/// For a note letter in either case: its pitch class, whether it takes a sharp,
/// and the letter in upper case.
pub open spec fn letter_class(c: char) -> Option<(int, bool, char)> {
    if c == 'C' || c == 'c' {
        Some((0, true, 'C'))
    } else if c == 'D' || c == 'd' {
        Some((2, true, 'D'))
    } else if c == 'E' || c == 'e' {
        Some((4, false, 'E'))
    } else if c == 'F' || c == 'f' {
        Some((5, true, 'F'))
    } else if c == 'G' || c == 'g' {
        Some((7, true, 'G'))
    } else if c == 'A' || c == 'a' {
        Some((9, true, 'A'))
    } else if c == 'B' || c == 'b' {
        Some((11, false, 'B'))
    } else {
        None
    }
}

/// The note-name reading of `s`: a letter, an optional `#`, then the octave.
pub open spec fn note_name_value(s: Seq<char>) -> Result<u8, ParsePitchError> {
    if s.len() == 0 {
        Err(ParsePitchError::Empty)
    } else {
        match letter_class(s[0]) {
            None => Err(ParsePitchError::InvalidNoteName(s[0])),
            Some((k, sharpable, upper)) => {
                let sharp = s.len() > 1 && s[1] == '#';
                if sharp && !sharpable {
                    Err(ParsePitchError::InvalidSharp(upper))
                } else {
                    match i8_text(s.skip(if sharp { 2 } else { 1 })) {
                        None => Err(ParsePitchError::OctaveText),
                        Some(o) => if o + 1 < 0 {
                            Err(ParsePitchError::OctaveNumber)
                        } else {
                            let v = (o + 1) * 12 + k + if sharp { 1int } else { 0int };
                            if v <= 127 {
                                Ok(v as u8)
                            } else {
                                Err(
                                    ParsePitchError::OutOfRange(
                                        OutOfBounds { value: if v <= 255 { v as u8 } else { 255u8 }, max: 127 },
                                    ),
                                )
                            }
                        },
                    }
                }
            },
        }
    }
}

/// The pitch that `s` names: a note number in decimal, or else a note name.
pub open spec fn parse_pitch_text(s: Seq<char>) -> Result<u8, ParsePitchError> {
    match u8_text(s) {
        Some(v) => if v <= 127 {
            Ok(v as u8)
        } else {
            Err(ParsePitchError::OutOfRange(OutOfBounds { value: v as u8, max: 127 }))
        },
        None => note_name_value(s),
    }
}

proof fn lemma_digits_nonneg(s: Seq<char>)
    requires
        all_digits(s),
    ensures
        digits_value(s) >= 0,
    decreases s.len(),
{
    if s.len() > 0 {
        assert(is_digit(s[s.len() - 1]));
        lemma_digits_nonneg(s.drop_last());
    }
}

/// The value of the digits of `v` from `start` on, when it is at most `limit`.
pub(crate) fn read_digits(v: &Vec<char>, start: usize, limit: u64) -> (r: Option<u64>)
    requires
        start <= v@.len(),
    ensures
        match magnitude(v@.skip(start as int), limit as int) {
            Some(m) => r is Some && r->0 as int == m,
            None => r is None,
        },
        r is Some ==> r->0 <= limit,
{
    let mut i: usize = start;
    let mut acc: u128 = 0;
    let mut over = false;
    while i < v.len()
        invariant
            start <= i <= v@.len(),
            all_digits(v@.subrange(start as int, i as int)),
            !over ==> acc as int == digits_value(v@.subrange(start as int, i as int)) && acc
                <= limit,
            over ==> digits_value(v@.subrange(start as int, i as int)) > limit,
        decreases v@.len() - i,
    {
        let c = v[i];
        let pre = Ghost(v@.subrange(start as int, i as int));
        assert(v@.subrange(start as int, i + 1) =~= pre@.push(c));
        assert(pre@.push(c).drop_last() =~= pre@);
        if !('0' <= c && c <= '9') {
            assert(!is_digit(v@.skip(start as int)[i - start]));
            return None;
        }
        proof {
            lemma_digits_nonneg(pre@);
        }
        let d = (c as u32) - ('0' as u32);
        if !over {
            let next = acc * 10 + d as u128;
            if next > limit as u128 {
                over = true;
            } else {
                acc = next;
            }
        }
        i = i + 1;
    }
    assert(v@.subrange(start as int, i as int) =~= v@.skip(start as int));
    if i == start || over {
        None
    } else {
        Some(acc as u64)
    }
}

fn letter_of(c: char) -> (r: Option<(u8, bool, char)>)
    ensures
        match letter_class(c) {
            Some((k, s, u)) => r == Some((k as u8, s, u)),
            None => r is None,
        },
{
    if c == 'C' || c == 'c' {
        Some((0, true, 'C'))
    } else if c == 'D' || c == 'd' {
        Some((2, true, 'D'))
    } else if c == 'E' || c == 'e' {
        Some((4, false, 'E'))
    } else if c == 'F' || c == 'f' {
        Some((5, true, 'F'))
    } else if c == 'G' || c == 'g' {
        Some((7, true, 'G'))
    } else if c == 'A' || c == 'a' {
        Some((9, true, 'A'))
    } else if c == 'B' || c == 'b' {
        Some((11, false, 'B'))
    } else {
        None
    }
}

} // verus!

verus! {

impl Pitch {
    /// Reads a pitch from a note number in decimal ("60") or a note name ("C4",
    /// "a#-1"; the letter in either case, a sharp only on C, D, F, G and A).
    pub fn parse(s: &str) -> (r: Result<Pitch, ParsePitchError>)
        ensures
            match r {
                Ok(p) => parse_pitch_text(s@) == Ok::<u8, ParsePitchError>(p.spec_number()),
                Err(e) => parse_pitch_text(s@) == Err::<u8, ParsePitchError>(e),
            },
    {
        let v = chars_of(s);
        let sign: usize = if v.len() > 0 && v[0] == '+' { 1 } else { 0 };
        if v.len() > 0 {
            assert(v@.skip(1) =~= v@.drop_first());
        }
        assert(v@.skip(0) =~= v@);
        assert(u8_text(v@) == magnitude(v@.skip(sign as int), 255));
        if let Some(n) = read_digits(&v, sign, 255) {
            assert(u8_text(s@) == Some(n as int));
            let n8 = n as u8;
            assert(n8 as int == n as int);
            if n8 > 127 {
                return Err(ParsePitchError::OutOfRange(OutOfBounds::new(n8, 127)));
            }
            return Ok(Pitch(n8));
        }
        if v.len() == 0 {
            return Err(ParsePitchError::Empty);
        }
        let c = v[0];
        let (k, sharpable, upper) = match letter_of(c) {
            Some(info) => info,
            None => {
                return Err(ParsePitchError::InvalidNoteName(c));
            },
        };
        let sharp = v.len() > 1 && v[1] == '#';
        if sharp && !sharpable {
            return Err(ParsePitchError::InvalidSharp(upper));
        }
        let rest: usize = if sharp { 2 } else { 1 };
        let tail = Ghost(v@.skip(rest as int));
        if v.len() > rest {
            assert(v@.skip(rest as int + 1) =~= tail@.drop_first());
        }
        let octave: i32 = if v.len() > rest && v[rest] == '-' {
            match read_digits(&v, rest + 1, 128) {
                Some(m) => {
                    assert(i8_text(tail@) == Some(-(m as int)));
                    -(m as i32)
                },
                None => {
                    return Err(ParsePitchError::OctaveText);
                },
            }
        } else {
            let from: usize = if v.len() > rest && v[rest] == '+' { rest + 1 } else { rest };
            assert(v@.skip(rest as int) =~= tail@);
            match read_digits(&v, from, 127) {
                Some(m) => {
                    assert(i8_text(tail@) == Some(m as int));
                    m as i32
                },
                None => {
                    return Err(ParsePitchError::OctaveText);
                },
            }
        };
        if octave + 1 < 0 {
            return Err(ParsePitchError::OctaveNumber);
        }
        let value: i32 = (octave + 1) * 12 + k as i32 + if sharp { 1i32 } else { 0i32 };
        if value > 127 {
            let shown: u8 = if value <= 255 { value as u8 } else { 255u8 };
            return Err(ParsePitchError::OutOfRange(OutOfBounds::new(shown, 127)));
        }
        Ok(Pitch(value as u8))
    }
}

spec fn class_of(info: Option<(int, bool, char)>) -> int {
    match info {
        Some((k, _, _)) => k,
        None => 0,
    }
}

spec fn sharpable(info: Option<(int, bool, char)>) -> bool {
    match info {
        Some((_, b, _)) => b,
        None => false,
    }
}

proof fn lemma_class_name(k: int)
    requires
        0 <= k < 12,
    ensures
        ({
            let s = class_name(k);
            &&& 1 <= s.len() <= 2
            &&& !is_digit(s[0]) && s[0] != '+'
            &&& letter_class(s[0]) is Some
            &&& class_of(letter_class(s[0])) + (if s.len() == 2 { 1int } else { 0int }) == k
            &&& (s.len() == 2 ==> s[1] == '#' && sharpable(letter_class(s[0])))
            &&& (s.len() == 1 ==> s[0] != '#')
        }),
{
}

proof fn lemma_octave_text(o: int)
    requires
        -1 <= o <= 9,
    ensures
        i8_text(octave_text(o)) == Some(o),
        octave_text(o)[0] != '#',
{
    reveal_with_fuel(digits_value, 2);
    if o < 0 {
        let t = octave_text(o).drop_first();
        assert(t =~= seq!['1']);
        assert(t.drop_last() =~= Seq::<char>::empty());
    } else {
        let t = octave_text(o);
        assert(t.drop_last() =~= Seq::<char>::empty());
    }
}

/// Every pitch name reads back as the note number it was made from.
pub proof fn lemma_name_reads_back(n: int)
    requires
        0 <= n <= 127,
    ensures
        parse_pitch_text(pitch_name(n)) == Ok::<u8, ParsePitchError>(n as u8),
{
    let k = n % 12;
    let o = n / 12 - 1;
    let s = pitch_name(n);
    let c = class_name(k);
    lemma_class_name(k);
    lemma_octave_text(o);
    assert(s[0] == c[0]);
    assert(!all_digits(s)) by {
        assert(!is_digit(s[0]));
    }
    assert(s.len() > 1 && s.drop_first().len() > 0);
    assert(u8_text(s) is None) by {
        assert(s[0] != '+');
    }
    let sharp = s.len() > 1 && s[1] == '#';
    if c.len() == 2 {
        assert(s[1] == c[1]);
        assert(s.skip(2) =~= octave_text(o));
    } else {
        assert(s[1] == octave_text(o)[0]);
        assert(s.skip(1) =~= octave_text(o));
    }
}

/// Reading a pitch name and naming the pitch read gives back the same text,
/// for every name of a MIDI note.
pub proof fn lemma_name_round_trip(s: Seq<char>, n: int)
    requires
        0 <= n <= 127,
        s == pitch_name(n),
    ensures
        parse_pitch_text(s) is Ok,
        pitch_name(parse_pitch_text(s)->Ok_0 as int) == s,
{
    lemma_name_reads_back(n);
}

} // verus!

verus! {

/// Relies on `char::to_string`: the text of the one character `c`.
#[verifier::external_body]
fn char_text(c: char) -> (r: String)
    ensures
        r@ == seq![c],
{
    c.to_string()
}

/// The text of a [`ParsePitchError`].
pub open spec fn parse_error_text(e: ParsePitchError) -> Seq<char> {
    match e {
        ParsePitchError::Empty => "Provided string was empty"@,
        ParsePitchError::InvalidNoteName(c) => seq![c] + " is not a valid note name"@,
        ParsePitchError::InvalidSharp(c) => "Note "@ + seq![c] + " cannot have a sharp attached to it"@,
        ParsePitchError::OctaveText => "Failed to parse octave number"@,
        ParsePitchError::OctaveNumber => "Octave number is less than -1"@,
        ParsePitchError::OutOfRange(b) => out_of_bounds_text(b.value, b.max),
    }
}

impl ParsePitchError {
    /// A sentence saying what is wrong.
    pub fn message(&self) -> (r: String)
        ensures
            r@ == parse_error_text(*self),
    {
        match self {
            ParsePitchError::Empty => String::from_str("Provided string was empty"),
            ParsePitchError::InvalidNoteName(c) => {
                let mut r = char_text(*c);
                r.append(" is not a valid note name");
                r
            },
            ParsePitchError::InvalidSharp(c) => {
                let mut r = String::from_str("Note ");
                let t = char_text(*c);
                r.append(t.as_str());
                r.append(" cannot have a sharp attached to it");
                r
            },
            ParsePitchError::OctaveText => String::from_str("Failed to parse octave number"),
            ParsePitchError::OctaveNumber => String::from_str("Octave number is less than -1"),
            ParsePitchError::OutOfRange(b) => b.message(),
        }
    }
}

} // verus!

verus! {

impl core::str::FromStr for Pitch {
    type Err = ParsePitchError;

    fn from_str(s: &str) -> Result<Pitch, ParsePitchError> {
        Pitch::parse(s)
    }
}

} // verus!
