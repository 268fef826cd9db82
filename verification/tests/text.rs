use neuromaster::record::first_entry;
use neuromaster::text::{chars_of, contains, matches_at, same_text};

fn chars(s: &str) -> Vec<char> {
    s.chars().collect()
}

#[test]
fn characters_come_in_order() {
    assert_eq!(chars_of("añ✓"), ['a', 'ñ', '✓']);
    assert_eq!(chars_of(""), Vec::<char>::new());
}

#[test]
fn pattern_is_found_where_it_stands() {
    let text = chars("OpenBSD 6.8");
    assert!(matches_at(&text, &chars("Open"), 0));
    assert!(matches_at(&text, &chars("BSD"), 4));
    assert!(!matches_at(&text, &chars("BSD"), 3));
    assert!(matches_at(&text, &chars(""), 11));
}

#[test]
fn substring_is_found_anywhere() {
    assert!(contains(&chars("a Linux box"), &chars("Linux")));
    assert!(contains(&chars("Linux"), &chars("Linux")));
    assert!(contains(&chars("xLinux"), &chars("Linux")));
    assert!(contains(&chars("Linuxx"), &chars("Linux")));
    assert!(!contains(&chars("Linu"), &chars("Linux")));
    assert!(!contains(&chars("L i n u x"), &chars("Linux")));
    assert!(!contains(&chars(""), &chars("Linux")));
    assert!(contains(&chars(""), &chars("")));
    assert!(contains(&chars("abc"), &chars("")));
}

#[test]
fn texts_are_compared_by_their_characters() {
    assert!(same_text("down", "down"));
    assert!(!same_text("down", "Down"));
    assert!(!same_text("down", "downs"));
    assert!(!same_text("", "down"));
    assert!(same_text("", ""));
}

#[test]
fn first_entry_is_the_first_or_nothing() {
    let a = "a".to_string();
    assert_eq!(first_entry(&vec![Some(a.clone()), Some("b".to_string())]), Some(&a));
    assert_eq!(first_entry(&vec![None, Some("b".to_string())]), None);
    assert_eq!(first_entry(&vec![]), None);
}
