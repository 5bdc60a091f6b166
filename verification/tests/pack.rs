use std::collections::HashSet;

use dndsound::pack::catalog::{theme_for, themes};
use dndsound::pack::manifest::{is_cc0_license, sounds_for};

#[test]
fn no_sound_is_shared_between_themes() {
    let mut seen = HashSet::new();
    for theme in themes() {
        for id in theme.sound_ids {
            assert!(seen.insert(id), "freesound {id} appears in two themes");
        }
    }
}

#[test]
fn group_names_are_distinct() {
    let all = themes();
    let names: HashSet<&str> = all.iter().map(|t| t.group_name).collect();
    assert_eq!(names.len(), all.len(), "two themes share a group name");
}

#[test]
fn every_theme_has_enough_sounds_not_to_repeat_at_once() {
    for theme in themes() {
        assert!(theme.sound_ids.len() >= 4, "{} has too few sounds", theme.event_id);
    }
}

#[test]
fn a_theme_is_found_by_its_event() {
    let door = theme_for("OPEN_DOOR").expect("a door theme");
    assert_eq!(door.group_name, "Двері відчиняються");
    assert_eq!(door.sound_ids[0], 588509);
    assert!(theme_for("NOT_AN_EVENT").is_none());
    // The coin sound that fired for chests lives with the coins.
    assert!(!theme_for("CHEST_OPEN").expect("chests").sound_ids.contains(&536074));
    assert!(theme_for("COINS").expect("coins").sound_ids.contains(&536074));
}

#[test]
fn only_the_public_domain_dedication_counts_as_cc0() {
    assert!(is_cc0_license("https://creativecommons.org/publicdomain/zero/1.0/"));
    assert!(is_cc0_license("http://creativecommons.org/publicdomain/zero/1.0/"));
    assert!(!is_cc0_license("https://creativecommons.org/licenses/by/4.0/"));
    assert!(!is_cc0_license("https://creativecommons.org/publicdomain/mark/1.0/"));
    assert!(!is_cc0_license(""));
}

#[test]
fn an_event_gets_exactly_its_own_sounds_in_order() {
    let ids: Vec<String> = ["DOOR", "BELL", "DOOR", "door"].iter().map(|s| s.to_string()).collect();
    assert_eq!(sounds_for(&ids, "DOOR"), vec![0, 2]);
    assert_eq!(sounds_for(&ids, "BELL"), vec![1]);
    assert_eq!(sounds_for(&ids, "THUNDER"), Vec::<usize>::new());
}
