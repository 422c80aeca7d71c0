//! Italic text: `*text*` or `_text_`.
use super::grammar::{lemma_scan1_at, m_italic, r_italic, r_italic_with};
use crate::text::{chars_of, string_of, strip_bounds, strip_char, suffix};
use vstd::prelude::*;
use vstd::string::*;

verus! {

/// Italic text, without its delimiters.
pub struct Italic {
    text: String,
}

impl View for Italic {
    type V = Seq<char>;

    closed spec fn view(&self) -> Seq<char> {
        self.text@
    }
}

/// The italic text at the start of `s` (what stands between the delimiters),
/// and how many characters it takes.
pub open spec fn spec_italic(s: Seq<char>) -> Option<(Seq<char>, int)> {
    match r_italic(s, 0) {
        Some(e) => Some((s.subrange(1, e - 1), e)),
        None => None,
    }
}

impl Italic {
    /// The italic text at the start of `input`, and what follows it.
    pub fn parse(input: &str) -> (r: Option<(Self, &str)>)
        ensures
            match spec_italic(input@) {
                Some((t, n)) => r matches Some((x, left)) && x@ == t && left@ == input@.skip(n),
                None => r is None,
            },
    {
        let v = chars_of(input);
        match m_italic(&v, 0) {
            Some(e) => Some((Italic { text: string_of(&v, 1, e - 1) }, suffix(input, e))),
            None => None,
        }
    }

    /// The text without leading and trailing `*`.
    pub fn text(&self) -> (r: &str)
        ensures
            r@ == strip_char(self@, '*'),
    {
        let s = self.text.as_str();
        let v = chars_of(s);
        let (a, b) = strip_bounds(&v, '*');
        s.substring_char(a, b)
    }
}

/// Italic text `c t c` (with `c` a `*` or a `_`) is read as `t`, taking
/// those characters, whatever follows, when `t` is one line that is not
/// empty and holds no `c`: spaces and other characters inside do not matter.
pub proof fn lemma_italic_text(c: char, t: Seq<char>, rest: Seq<char>)
    requires
        c == '*' || c == '_',
        t.len() > 0,
        forall|j: int| 0 <= j < t.len() ==> t[j] != '\n' && t[j] != c,
    ensures
        spec_italic(seq![c] + t + seq![c] + rest) == Some((t, t.len() as int + 2)),
{
    let s = seq![c] + t + seq![c] + rest;
    let n = t.len() as int;
    assert forall|j: int| 1 <= j < n + 1 implies s[j] != '\n' && s[j] != c by {
        assert(s[j] == t[j - 1]);
    }
    lemma_scan1_at(s, 1, n + 1, c);
    assert(r_italic_with(s, 0, c) == Some(n + 2));
    if c == '_' {
        assert(r_italic_with(s, 0, '*') is None);
    }
    assert(s.subrange(1, n + 1) =~= t);
}

} // verus!
