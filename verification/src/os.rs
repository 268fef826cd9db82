//! Operating-system guesses, classified from the free text of a scan.

use crate::text::{chars_of, contains, has_substring};
use vstd::prelude::*;

verus! {

/// The families an operating-system text is sorted into.
#[derive(Clone, Copy, Debug, PartialEq, Eq, Structural)]
pub enum OsFamily {
    Linux,
    FreeBSD,
    OpenBSD,
    Other,
}

/// An operating-system guess: the family, and the text it was read from.
#[derive(Debug, PartialEq)]
pub enum OsGuess {
    Linux(String),
    FreeBSD(String),
    OpenBSD(String),
    Other(String),
}

/// What a guess says: its family and the characters of its text.
pub struct OsLabel {
    pub family: OsFamily,
    pub text: Seq<char>,
}

impl View for OsGuess {
    type V = OsLabel;

    open spec fn view(&self) -> OsLabel {
        match self {
            OsGuess::Linux(text) => OsLabel { family: OsFamily::Linux, text: text@ },
            OsGuess::FreeBSD(text) => OsLabel { family: OsFamily::FreeBSD, text: text@ },
            OsGuess::OpenBSD(text) => OsLabel { family: OsFamily::OpenBSD, text: text@ },
            OsGuess::Other(text) => OsLabel { family: OsFamily::Other, text: text@ },
        }
    }
}

/// The family of a text: the first of "Linux", "FreeBSD" and "OpenBSD" that
/// stands in it, in this order, and `Other` where none does.
pub open spec fn classify(text: Seq<char>) -> OsFamily {
    if has_substring(text, "Linux"@) {
        OsFamily::Linux
    } else if has_substring(text, "FreeBSD"@) {
        OsFamily::FreeBSD
    } else if has_substring(text, "OpenBSD"@) {
        OsFamily::OpenBSD
    } else {
        OsFamily::Other
    }
}

impl Clone for OsGuess {
    fn clone(&self) -> (copy: Self)
        ensures
            copy@ == self@,
    {
        match self {
            OsGuess::Linux(text) => OsGuess::Linux(text.clone()),
            OsGuess::FreeBSD(text) => OsGuess::FreeBSD(text.clone()),
            OsGuess::OpenBSD(text) => OsGuess::OpenBSD(text.clone()),
            OsGuess::Other(text) => OsGuess::Other(text.clone()),
        }
    }
}

impl OsGuess {
    /// Classifies `string` and keeps it, unchanged, inside the guess.
    pub fn from_string(string: &String) -> (guess: OsGuess)
        ensures
            guess@.family == classify(string@),
            guess@.text == string@,
    {
        let text = chars_of(string.as_str());
        if contains(&text, &chars_of("Linux")) {
            OsGuess::Linux(string.clone())
        } else if contains(&text, &chars_of("FreeBSD")) {
            OsGuess::FreeBSD(string.clone())
        } else if contains(&text, &chars_of("OpenBSD")) {
            OsGuess::OpenBSD(string.clone())
        } else {
            OsGuess::Other(string.clone())
        }
    }

    /// The family of this guess.
    pub fn family(&self) -> (family: OsFamily)
        ensures
            family == self@.family,
    {
        match self {
            OsGuess::Linux(_) => OsFamily::Linux,
            OsGuess::FreeBSD(_) => OsFamily::FreeBSD,
            OsGuess::OpenBSD(_) => OsFamily::OpenBSD,
            OsGuess::Other(_) => OsFamily::Other,
        }
    }

    /// The text this guess was read from.
    pub fn text(&self) -> (text: &String)
        ensures
            text@ == self@.text,
    {
        match self {
            OsGuess::Linux(text) => text,
            OsGuess::FreeBSD(text) => text,
            OsGuess::OpenBSD(text) => text,
            OsGuess::Other(text) => text,
        }
    }
}

} // verus!
