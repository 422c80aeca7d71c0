pub mod error;
pub mod key_info;
pub mod md;
pub mod text;
pub mod translate;

use vstd::prelude::*;

verus! {

/// One translation: its text and the language it is in.
pub struct TranslationEntry {
    text: String,
    to: String,
}

/// What a translation holds.
pub struct TranslationEntryView {
    pub text: Seq<char>,
    pub to: Seq<char>,
}

impl View for TranslationEntry {
    type V = TranslationEntryView;

    closed spec fn view(&self) -> TranslationEntryView {
        TranslationEntryView { text: self.text@, to: self.to@ }
    }
}

impl TranslationEntry {
    pub fn new(text: &str, to: &str) -> (r: Self)
        ensures
            r@ == (TranslationEntryView { text: text@, to: to@ }),
    {
        TranslationEntry { text: text.to_owned(), to: to.to_owned() }
    }

    pub fn text(&self) -> (r: &str)
        ensures
            r@ == self@.text,
    {
        self.text.as_str()
    }

    /// The language of the translation.
    pub fn language(&self) -> (r: &str)
        ensures
            r@ == self@.to,
    {
        self.to.as_str()
    }
}

} // verus!
