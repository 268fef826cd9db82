use neuromaster::os::{OsFamily, OsGuess};

fn guess(text: &str) -> OsGuess {
    OsGuess::from_string(&text.to_string())
}

#[test]
fn linux_text_is_linux() {
    assert_eq!(guess("Linux 4.15"), OsGuess::Linux("Linux 4.15".to_string()));
}

#[test]
fn freebsd_text_is_freebsd() {
    assert_eq!(guess("FreeBSD 12.1"), OsGuess::FreeBSD("FreeBSD 12.1".to_string()));
}

#[test]
fn openbsd_text_is_openbsd() {
    assert_eq!(guess("OpenBSD 6.8"), OsGuess::OpenBSD("OpenBSD 6.8".to_string()));
}

#[test]
fn unknown_text_is_other() {
    assert_eq!(guess("Cisco IOS"), OsGuess::Other("Cisco IOS".to_string()));
    assert_eq!(guess(""), OsGuess::Other(String::new()));
}

#[test]
fn first_family_in_order_wins() {
    assert_eq!(guess("FreeBSD or Linux").family(), OsFamily::Linux);
    assert_eq!(guess("OpenBSD or FreeBSD").family(), OsFamily::FreeBSD);
    assert_eq!(guess("LinuxFreeBSDOpenBSD").family(), OsFamily::Linux);
}

#[test]
fn family_names_are_case_sensitive() {
    assert_eq!(guess("linux 5.4").family(), OsFamily::Other);
    assert_eq!(guess("FREEBSD").family(), OsFamily::Other);
}

#[test]
fn family_name_inside_a_word_counts() {
    assert_eq!(guess("GNU/Linux-libre").family(), OsFamily::Linux);
    assert_eq!(guess("Linu").family(), OsFamily::Other);
}

#[test]
fn guess_keeps_its_text() {
    let g = guess("Linux 2.6.32 - 3.10");
    assert_eq!(g.text(), "Linux 2.6.32 - 3.10");
    assert_eq!(g.clone(), g);
}

#[test]
fn text_with_other_scripts_is_kept() {
    let g = guess("Ünïcödé Linux ✓");
    assert_eq!(g, OsGuess::Linux("Ünïcödé Linux ✓".to_string()));
}
