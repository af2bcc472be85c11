use autosam::mapping::{key_range, velocity_range, Group, NamedFile, ZoneInfo};
use autosam::midi::decimal;
use autosam::midi::Pitch;

#[test]
fn key_ranges_meet_halfway() {
    let pitches = [36u8, 48, 60];
    assert_eq!(key_range(&pitches, 0), (None, Some(41)));
    assert_eq!(key_range(&pitches, 1), (Some(42), Some(53)));
    assert_eq!(key_range(&pitches, 2), (Some(54), None));
    // neighbours one apart: the high end stays at the note itself
    let close = [60u8, 61];
    assert_eq!(key_range(&close, 0), (None, Some(60)));
    assert_eq!(key_range(&close, 1), (Some(60), None));
    // repeated pitches (layers, takes) share a range
    let layered = [60u8, 60, 64, 64];
    assert_eq!(key_range(&layered, 1), (None, Some(61)));
    assert_eq!(key_range(&layered, 3), (Some(62), None));
}

#[test]
fn velocity_ranges_reach_the_next_layer() {
    let pitches = [60u8, 60, 60, 62, 62, 62];
    let vels = [Some(127u8), Some(85), Some(43), Some(127), Some(85), Some(43)];
    let zone = |lo, hi| Some(ZoneInfo::new().with_low(Some(lo)).with_high(Some(hi)));
    assert_eq!(velocity_range(&pitches, &vels, 0), zone(86, 127));
    assert_eq!(velocity_range(&pitches, &vels, 1), zone(44, 85));
    assert_eq!(velocity_range(&pitches, &vels, 2), None);
    assert_eq!(velocity_range(&pitches, &vels, 3), zone(86, 127));
    let none = [None, None, None, None, None, None];
    assert_eq!(velocity_range(&pitches, &none, 0), None);
}

#[test]
fn zone_info_builders() {
    let z = ZoneInfo::new().with_low_fade(Some(3)).with_high_fade(Some(4)).with_low(Some(1)).with_high(Some(2));
    assert_eq!((z.low(), z.high(), z.low_fade(), z.high_fade()), (Some(1), Some(2), Some(3), Some(4)));
}

#[test]
fn group_builders() {
    let g = Group::new().with_name("First".to_string()).with_color(Some([1, 2, 3]));
    assert_eq!(g.name(), "First");
    assert_eq!(g.color(), Some([1, 2, 3]));
}

#[test]
fn decimal_text() {
    assert_eq!(decimal(0), "0");
    assert_eq!(decimal(7), "7");
    assert_eq!(decimal(127), "127");
    assert_eq!(decimal(256), "256");
    assert_eq!(decimal(65535), "65535");
}

#[test]
fn file_names() {
    let f = NamedFile {
        prefix: Some("Piano".to_string()),
        pitch: Pitch::new(61).unwrap(),
        velocity: Some(100),
        round_robin: Some(0),
    };
    assert_eq!(f.file_name(), "Piano_C#4_V100_RR1.wav");
    let g = NamedFile { prefix: None, pitch: Pitch::new(0).unwrap(), velocity: None, round_robin: None };
    assert_eq!(g.file_name(), "C-1.wav");
    let h = NamedFile { prefix: None, pitch: Pitch::new(127).unwrap(), velocity: None, round_robin: Some(255) };
    assert_eq!(h.file_name(), "G9_RR256.wav");
}
