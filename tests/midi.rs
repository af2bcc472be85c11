use autosam::midi::{Channel, Note, NoteState, ParsePitchError, Pitch};

#[test]
fn every_pitch_name_reads_back() {
    for n in 0u8..=127 {
        let p = Pitch::new(n).unwrap();
        let name = p.name();
        let back = Pitch::parse(&name).unwrap();
        assert_eq!(back.note_number(), n);
        assert_eq!(back.name(), name);
    }
}

#[test]
fn pitch_names() {
    assert_eq!(Pitch::new(60).unwrap().name(), "C4");
    assert_eq!(Pitch::new(0).unwrap().name(), "C-1");
    assert_eq!(Pitch::new(10).unwrap().name(), "A#-1");
    assert_eq!(Pitch::new(127).unwrap().name(), "G9");
    assert_eq!(Pitch::new(61).unwrap().name(), "C#4");
}

#[test]
fn parse_numbers_and_names() {
    assert_eq!(Pitch::parse("60").unwrap().note_number(), 60);
    assert_eq!(Pitch::parse("+7").unwrap().note_number(), 7);
    assert_eq!(Pitch::parse("c4").unwrap().note_number(), 60);
    assert_eq!(Pitch::parse("A#-1").unwrap().note_number(), 10);
    assert_eq!(Pitch::parse("g9").unwrap().note_number(), 127);
    assert_eq!(Pitch::parse("B+2").unwrap().note_number(), 47);
}

#[test]
fn parse_errors() {
    assert_eq!(Pitch::parse(""), Err(ParsePitchError::Empty));
    assert_eq!(Pitch::parse("H4"), Err(ParsePitchError::InvalidNoteName('H')));
    assert_eq!(Pitch::parse("300"), Err(ParsePitchError::InvalidNoteName('3')));
    assert_eq!(Pitch::parse("e#4"), Err(ParsePitchError::InvalidSharp('E')));
    assert_eq!(Pitch::parse("C"), Err(ParsePitchError::OctaveText));
    assert_eq!(Pitch::parse("Cx"), Err(ParsePitchError::OctaveText));
    assert_eq!(Pitch::parse("C-2"), Err(ParsePitchError::OctaveNumber));
    match Pitch::parse("200") {
        Err(ParsePitchError::OutOfRange(e)) => assert_eq!(e.value(), 200),
        other => panic!("unexpected {other:?}"),
    }
    match Pitch::parse("G#9") {
        Err(ParsePitchError::OutOfRange(e)) => assert_eq!(e.value(), 128),
        other => panic!("unexpected {other:?}"),
    }
    match Pitch::parse("C100") {
        Err(ParsePitchError::OutOfRange(e)) => assert_eq!(e.value(), 255),
        other => panic!("unexpected {other:?}"),
    }
}

#[test]
fn pitch_and_channel_bounds() {
    assert!(Pitch::new(127).is_ok());
    assert_eq!(Pitch::new(128).unwrap_err().value(), 128);
    assert_eq!(Channel::new(15).unwrap().number(), 15);
    let e = Channel::new(16).unwrap_err();
    assert_eq!(e.value(), 16);
    assert_eq!(e.limit(), 15);
}

#[test]
fn midi_messages() {
    let ch = Channel::new(3).unwrap();
    let on = Note::new(Pitch::new(60).unwrap(), 100, NoteState::On);
    let off = Note { pitch: 61, velocity: 0, state: NoteState::Off };
    assert_eq!(on.as_midi_message(ch), [0x93, 60, 100]);
    assert_eq!(off.as_midi_message(ch), [0x83, 61, 0]);
    assert_eq!(NoteState::On.as_midi_message(Channel::new(0).unwrap()), 0x90);
    assert_eq!(ch.all_sound_off(), [0xB3, 120, 0]);
    assert_eq!(on.pitch().note_number(), 60);
    assert_eq!(on.velocity(), 100);
    assert_eq!(on.state(), NoteState::On);
}

#[test]
fn error_messages() {
    assert_eq!(Pitch::new(200).unwrap_err().message(), "Value 200 is larger than maximum 127.");
    assert_eq!(Channel::new(16).unwrap_err().message(), "Value 16 is larger than maximum 15.");
    assert_eq!(ParsePitchError::Empty.message(), "Provided string was empty");
    assert_eq!(ParsePitchError::InvalidNoteName('é').message(), "é is not a valid note name");
    assert_eq!(ParsePitchError::InvalidSharp('E').message(), "Note E cannot have a sharp attached to it");
    assert_eq!(ParsePitchError::OctaveText.message(), "Failed to parse octave number");
    assert_eq!(ParsePitchError::OctaveNumber.message(), "Octave number is less than -1");
    assert_eq!(Pitch::parse("G#9").unwrap_err().message(), "Value 128 is larger than maximum 127.");
    assert_eq!(Pitch::parse("ü4"), Err(ParsePitchError::InvalidNoteName('ü')));
}

#[test]
fn pitch_from_str() {
    let p: Pitch = "D#2".parse().unwrap();
    assert_eq!(p.note_number(), 39);
    assert_eq!("x1".parse::<Pitch>(), Err(ParsePitchError::InvalidNoteName('x')));
}
