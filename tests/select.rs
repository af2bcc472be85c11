use autosam::select::{best_rate, position_containing, Matcher, BACKUP_SAMPLE_RATE, PREFERRED_SAMPLE_RATE};

fn names(list: &[&str]) -> Vec<String> {
    list.iter().map(|s| s.to_string()).collect()
}

#[test]
fn numbers_pick_by_place() {
    let m = Matcher::parse("1");
    assert!(matches!(m, Matcher::Index(1)));
    assert_eq!(m.get(&names(&["a", "b"])), Some(1));
    assert_eq!(Matcher::parse("+2").get(&names(&["a", "b"])), None);
}

#[test]
fn text_picks_by_lower_case_name() {
    let m = Matcher::parse("Focus");
    match &m {
        Matcher::String(s) => assert_eq!(s, "focus"),
        other => panic!("unexpected {other:?}"),
    }
    let list = names(&["Built-in Microphone", "FOCUSRITE USB", "Focusrite 2"]);
    assert_eq!(m.get(&list), Some(1));
    assert_eq!(Matcher::parse("missing").get(&list), None);
    assert_eq!(Matcher::parse("").get(&list), Some(0));
}

#[test]
fn substring_positions() {
    let list = names(&["alpha", "beta", "alphabet"]);
    assert_eq!(position_containing(&list, "bet"), Some(1));
    assert_eq!(position_containing(&list, "phab"), Some(2));
    assert_eq!(position_containing(&list, "Alpha"), None);
    assert_eq!(position_containing(&list, "alphabets"), None);
    assert_eq!(position_containing(&Vec::new(), ""), None);
}

#[test]
fn sample_rate_choice() {
    assert_eq!(best_rate(&vec![(8_000, 48_000), (44_100, 192_000)]), Some((1, 96_000)));
    assert_eq!(best_rate(&vec![(8_000, 48_000), (48_000, 48_000)]), Some((0, 48_000)));
    assert_eq!(best_rate(&vec![(8_000, 44_100)]), None);
    assert_eq!(best_rate(&vec![]), None);
    assert_eq!(PREFERRED_SAMPLE_RATE, 96_000);
    assert_eq!(BACKUP_SAMPLE_RATE, 48_000);
}
