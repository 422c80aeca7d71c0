//! Plain text: the rest of a line that is not a list item.
use super::grammar::{m_normal, r_normal};
use super::MdOperation;
use crate::error::JTranslateError;
use crate::text::{chars_of, line_of, suffix, trim, trimmed_string};
use vstd::prelude::*;

verus! {

/// Plain text.
pub struct NormalText {
    text: String,
}

impl View for NormalText {
    type V = Seq<char>;

    closed spec fn view(&self) -> Seq<char> {
        self.text@
    }
}

/// The plain text at the start of `s`, trimmed, and how many characters it takes.
pub open spec fn spec_normal(s: Seq<char>) -> Option<(Seq<char>, int)> {
    match r_normal(s, 0) {
        Some(e) => Some((trim(s.subrange(0, e)), e)),
        None => None,
    }
}

impl NormalText {
    /// The plain text at the start of `input`, and what follows it.
    pub fn parse(input: &str) -> (r: Option<(Self, &str)>)
        ensures
            match spec_normal(input@) {
                Some((t, n)) => r matches Some((x, left)) && x@ == t && left@ == input@.skip(n),
                None => r is None,
            },
    {
        let v = chars_of(input);
        match m_normal(&v, 0) {
            Some(e) => Some((NormalText { text: trimmed_string(&v, 0, e) }, suffix(input, e))),
            None => None,
        }
    }
}

impl MdOperation for NormalText {
    open spec fn text_view(&self) -> Seq<char> {
        self@
    }

    open spec fn md_view(&self, body: Seq<char>) -> Seq<char> {
        body.push('\n')
    }

    fn text(&self) -> (r: &str) {
        self.text.as_str()
    }

    fn to_md_str(&self, translation: Option<&str>) -> (r: Result<String, JTranslateError>) {
        let body = match translation {
            Some(t) => t,
            None => self.text.as_str(),
        };
        Ok(line_of(body))
    }
}

} // verus!
