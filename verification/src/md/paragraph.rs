//! Paragraphs, and line breaks.
use super::grammar::{m_linebreak, m_paragraph, r_linebreak, r_paragraph};
use super::MdOperation;
use crate::error::JTranslateError;
use crate::text::{chars_of, lemma_trim_shape, line_of, suffix, trim, trimmed_string};
use vstd::prelude::*;

verus! {

/// A line break: `<br>`, or two spaces at the end of a line.
pub struct LineBreak {}

/// Whether a line break starts `s`.
pub open spec fn spec_linebreak(s: Seq<char>) -> bool {
    r_linebreak(s, 0) is Some
}

impl LineBreak {
    /// The line break at the start of `input`, and what follows its first
    /// three characters.
    pub fn parse(input: &str) -> (r: Option<(Self, &str)>)
        ensures
            spec_linebreak(input@) ==> (r matches Some((_, left)) && left@ == input@.skip(3)),
            !spec_linebreak(input@) ==> r is None,
    {
        let v = chars_of(input);
        match m_linebreak(&v, 0) {
            Some(_) => Some((LineBreak {  }, suffix(input, 3))),
            None => None,
        }
    }
}

impl MdOperation for LineBreak {
    open spec fn text_view(&self) -> Seq<char> {
        Seq::empty()
    }

    open spec fn md_view(&self, body: Seq<char>) -> Seq<char> {
        body.push('\n')
    }

    fn text(&self) -> (r: &str) {
        proof {
            reveal_strlit("");
        }
        ""
    }

    fn to_md_str(&self, translation: Option<&str>) -> (r: Result<String, JTranslateError>) {
        let body = match translation {
            Some(t) => t,
            None => self.text(),
        };
        Ok(line_of(body))
    }
}

/// A paragraph: lines of text up to a blank line.
pub struct Paragraph {
    text: String,
}

impl View for Paragraph {
    type V = Seq<char>;

    closed spec fn view(&self) -> Seq<char> {
        self.text@
    }
}

/// `s` with each line end made a space.
pub open spec fn join_lines(s: Seq<char>) -> Seq<char> {
    s.map_values(|c: char| if c == '\n' { ' ' } else { c })
}

/// The paragraph at the start of `s`: its lines joined by spaces and
/// trimmed, and how many characters it takes: all it matched but the last
/// line end, which is left to what follows.
pub open spec fn spec_paragraph(s: Seq<char>) -> Option<(Seq<char>, int)> {
    match r_paragraph(s, 0) {
        Some(e) => Some((trim(join_lines(s.subrange(0, e))), e - 1)),
        None => None,
    }
}

/// `v[..n]` with each line end made a space.
fn joined(v: &Vec<char>, n: usize) -> (r: Vec<char>)
    requires
        n <= v.len(),
    ensures
        r@ == join_lines(v@.subrange(0, n as int)),
{
    let mut r: Vec<char> = Vec::new();
    let mut i: usize = 0;
    while i < n
        invariant
            i <= n <= v.len(),
            r@ == join_lines(v@.subrange(0, i as int)),
        decreases n - i,
    {
        let c = v[i];
        if c == '\n' {
            r.push(' ');
        } else {
            r.push(c);
        }
        i = i + 1;
        assert(r@ =~= join_lines(v@.subrange(0, i as int)));
    }
    r
}

impl Paragraph {
    /// The paragraph at the start of `input`, and what follows it.
    pub fn parse(input: &str) -> (r: Option<(Self, &str)>)
        ensures
            match spec_paragraph(input@) {
                Some((t, n)) => r matches Some((x, left)) && x@ == t && left@ == input@.skip(n),
                None => r is None,
            },
    {
        let v = chars_of(input);
        match m_paragraph(&v, 0) {
            Some(e) => {
                let w = joined(&v, e);
                let text = trimmed_string(&w, 0, e);
                assert(w@.subrange(0, e as int) =~= w@);
                Some((Paragraph { text }, suffix(input, e - 1)))
            },
            None => None,
        }
    }
}

impl MdOperation for Paragraph {
    open spec fn text_view(&self) -> Seq<char> {
        self@
    }

    open spec fn md_view(&self, body: Seq<char>) -> Seq<char> {
        body.push('\n')
    }

    fn text(&self) -> (r: &str) {
        self.text.as_str()
    }

    fn to_md_str(&self, translation: Option<&str>) -> (r: Result<String, JTranslateError>) {
        let body = match translation {
            Some(t) => t,
            None => self.text.as_str(),
        };
        Ok(line_of(body))
    }
}

/// A paragraph's text is one line: it holds no line end.
pub proof fn lemma_paragraph_one_line(s: Seq<char>)
    ensures
        spec_paragraph(s) matches Some((t, _)) ==> forall|k: int| 0 <= k < t.len() ==> t[k] != '\n',
{
    if let Some(e) = r_paragraph(s, 0) {
        let j = join_lines(s.subrange(0, e));
        lemma_trim_shape(j);
        let a = crate::text::skip_ws(j, 0, j.len() as int);
        let t = trim(j);
        assert forall|k: int| 0 <= k < t.len() implies t[k] != '\n' by {
            assert(t[k] == j[a + k]);
        }
    }
}

} // verus!
