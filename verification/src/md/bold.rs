//! Bold text: `**text**` or `__text__`.
use super::grammar::{lemma_scan2_at, m_bold, pair_at, r_bold, r_bold_with};
use crate::text::{chars_of, string_of, strip_bounds, strip_char, suffix};
use vstd::prelude::*;
use vstd::string::*;

verus! {

/// Bold text, without its delimiters.
pub struct Bold {
    text: String,
}

impl View for Bold {
    type V = Seq<char>;

    closed spec fn view(&self) -> Seq<char> {
        self.text@
    }
}

/// The bold text at the start of `s` (what stands between the delimiters),
/// and how many characters it takes.
pub open spec fn spec_bold(s: Seq<char>) -> Option<(Seq<char>, int)> {
    match r_bold(s, 0) {
        Some(e) => Some((s.subrange(2, e - 2), e)),
        None => None,
    }
}

impl Bold {
    /// The bold text at the start of `input`, and what follows it.
    pub fn parse(input: &str) -> (r: Option<(Self, &str)>)
        ensures
            match spec_bold(input@) {
                Some((t, n)) => r matches Some((x, left)) && x@ == t && left@ == input@.skip(n),
                None => r is None,
            },
    {
        let v = chars_of(input);
        match m_bold(&v, 0) {
            Some(e) => Some((Bold { text: string_of(&v, 2, e - 2) }, suffix(input, e))),
            None => None,
        }
    }

    /// The text without leading and trailing `*`.
    pub fn text(&self) -> (r: &str)
        ensures
            r@ == strip_char(self@, '*'),
    {
        let s = self.text.as_str();
        let v = chars_of(s);
        let (a, b) = strip_bounds(&v, '*');
        s.substring_char(a, b)
    }
}

/// Bold text `c c t c c` (with `c` a `*` or a `_`) is read as `t`, taking
/// those characters, whatever follows, when `t` is one line that is not
/// empty, holds no `c c` and does not end with `c`: the bold ends at the
/// first `c c`, and a single `c` inside it does not end it.
pub proof fn lemma_bold_text(c: char, t: Seq<char>, rest: Seq<char>)
    requires
        c == '*' || c == '_',
        t.len() > 0,
        forall|j: int| 0 <= j < t.len() ==> t[j] != '\n',
        forall|j: int| 0 <= j < t.len() && #[trigger] t[j] == c ==> j + 1 < t.len() && t[j + 1] != c,
    ensures
        spec_bold(seq![c, c] + t + seq![c, c] + rest) == Some((t, t.len() as int + 4)),
{
    let s = seq![c, c] + t + seq![c, c] + rest;
    let n = t.len() as int;
    assert forall|j: int| 2 <= j < n + 2 implies s[j] != '\n' && !pair_at(s, j, c) by {
        assert(s[j] == t[j - 2]);
        if t[j - 2] == c {
            assert(s[j + 1] == t[j - 1]);
        }
    }
    assert(pair_at(s, n + 2, c));
    lemma_scan2_at(s, 2, n + 2, c);
    assert(r_bold_with(s, 0, c) == Some(n + 4));
    if c == '_' {
        assert(r_bold_with(s, 0, '*') is None);
    }
    assert(s.subrange(2, n + 2) =~= t);
}

} // verus!
