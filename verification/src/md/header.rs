//! Headers: `# text` lines and underlined lines.
use super::grammar::{
    lemma_line_end, lemma_line_end_at, lemma_run_end, lemma_run_end_at, line_end, m_headings1,
    m_headings2, m_line_end, m_run_end, r_headings1, r_headings2, run_end,
};
use super::MdOperation;
use crate::error::JTranslateError;
use crate::text::{
    chars_of, is_ws, lemma_trim_shape, lemma_trim_trimmed, push_char, suffix, trim, trimmed_string,
};
use vstd::prelude::*;
use vstd::string::*;

verus! {

/// A header: its text, its level and whether it was underlined.
pub struct Header {
    text: String,
    level: usize,
    alt_syntax: bool,
}

/// What a header holds.
pub struct HeaderView {
    pub text: Seq<char>,
    pub level: nat,
    pub alt_syntax: bool,
}

impl View for Header {
    type V = HeaderView;

    closed spec fn view(&self) -> HeaderView {
        HeaderView { text: self.text@, level: self.level as nat, alt_syntax: self.alt_syntax }
    }
}

/// The header at the start of `s`, and how many characters it takes.
/// A `#` header has as level the number of `#`; an underlined one has level
/// 1 under `==`, 2 under `--`. The text is the header's line, trimmed.
pub open spec fn spec_header(s: Seq<char>) -> Option<(HeaderView, int)> {
    match r_headings1(s, 0) {
        Some(e) => {
            let h = run_end(s, 0, '#');
            Some((HeaderView { text: trim(s.subrange(h, e)), level: h as nat, alt_syntax: false }, e))
        },
        None => match r_headings2(s, 0) {
            Some(e) => {
                let l = line_end(s, 0);
                Some(
                    (
                        HeaderView {
                            text: trim(s.subrange(0, l)),
                            level: if s[l + 1] == '-' {
                                2
                            } else {
                                1
                            },
                            alt_syntax: true,
                        },
                        e,
                    ),
                )
            },
            None => None,
        },
    }
}

/// The markdown of a header whose text is `body`.
pub open spec fn header_md(h: HeaderView, body: Seq<char>) -> Seq<char> {
    let lead = if h.alt_syntax {
        Seq::<char>::empty()
    } else {
        Seq::new(h.level, |_i: int| '#').push(' ')
    };
    let under = if !h.alt_syntax {
        Seq::<char>::empty()
    } else if h.level == 1 {
        seq!['\n', '=', '=']
    } else {
        seq!['\n', '-', '-']
    };
    lead + body + under + seq!['\n']
}

impl Header {
    pub fn level(&self) -> (r: usize)
        ensures
            r == self@.level,
    {
        self.level
    }

    pub fn is_alt_syntax(&self) -> (r: bool)
        ensures
            r == self@.alt_syntax,
    {
        self.alt_syntax
    }

    /// The header at the start of `input`, and what follows it.
    pub fn parse(input: &str) -> (r: Option<(Self, &str)>)
        ensures
            match spec_header(input@) {
                Some((h, n)) => r matches Some((x, left)) && x@ == h && left@ == input@.skip(n),
                None => r is None,
            },
            r matches Some((x, _)) ==> x@.level >= 1 && (x@.alt_syntax ==> x@.level <= 2),
    {
        let v = chars_of(input);
        proof {
            lemma_run_end(v@, 0, '#');
        }
        if let Some(e) = m_headings1(&v, 0) {
            let h = m_run_end(&v, 0, '#');
            let text = trimmed_string(&v, h, e);
            return Some((Header { text, level: h, alt_syntax: false }, suffix(input, e)));
        }
        match m_headings2(&v, 0) {
            Some(e) => {
                let l = m_line_end(&v, 0);
                let text = trimmed_string(&v, 0, l);
                let level = if v[l + 1] == '-' {
                    2
                } else {
                    1
                };
                Some((Header { text, level, alt_syntax: true }, suffix(input, e)))
            },
            None => None,
        }
    }
}

impl MdOperation for Header {
    open spec fn text_view(&self) -> Seq<char> {
        self@.text
    }

    open spec fn md_view(&self, body: Seq<char>) -> Seq<char> {
        header_md(self@, body)
    }

    fn text(&self) -> (r: &str) {
        self.text.as_str()
    }

    fn to_md_str(&self, translation: Option<&str>) -> (r: Result<String, JTranslateError>) {
        let mut result = String::new();
        if !self.alt_syntax {
            let mut k: usize = 0;
            while k < self.level
                invariant
                    k <= self.level,
                    result@ == Seq::new(k as nat, |_i: int| '#'),
                decreases self.level - k,
            {
                push_char(&mut result, '#');
                k = k + 1;
                assert(result@ =~= Seq::new(k as nat, |_i: int| '#'));
            }
            push_char(&mut result, ' ');
        }
        let body = match translation {
            Some(t) => t,
            None => self.text.as_str(),
        };
        result.append(body);
        if self.alt_syntax {
            push_char(&mut result, '\n');
            if self.level == 1 {
                push_char(&mut result, '=');
                push_char(&mut result, '=');
            } else {
                push_char(&mut result, '-');
                push_char(&mut result, '-');
            }
        }
        push_char(&mut result, '\n');
        assert(result@ =~= header_md(self@, body@));
        Ok(result)
    }
}

/// The text of a parsed header: it holds no line end, and when it is not
/// empty it starts and ends with characters that are not white space. An
/// underlined header's text is never empty, and starts its line.
proof fn lemma_header_text(s: Seq<char>)
    requires
        spec_header(s) is Some,
    ensures
        ({
            let h = spec_header(s).unwrap().0;
            &&& forall|k: int| 0 <= k < h.text.len() ==> h.text[k] != '\n'
            &&& h.text.len() > 0 ==> !is_ws(h.text[0]) && !is_ws(h.text.last())
            &&& h.alt_syntax ==> h.text.len() > 0 && h.text =~= s.subrange(0, h.text.len() as int)
                && h.text.len() <= line_end(s, 0)
            &&& h.alt_syntax ==> h.level == 1 || h.level == 2
        }),
{
    let h = spec_header(s).unwrap().0;
    lemma_run_end(s, 0, '#');
    lemma_line_end(s, 0);
    if let Some(e) = r_headings1(s, 0) {
        let hh = run_end(s, 0, '#');
        lemma_line_end(s, hh + 1);
        let y = s.subrange(hh, e);
        lemma_trim_shape(y);
        let a = crate::text::skip_ws(y, 0, y.len() as int);
        let b = crate::text::back_ws(y, a, y.len() as int);
        assert(is_ws(y[0]));
        assert(is_ws(y[y.len() - 1]));
        if a < y.len() {
            crate::text::lemma_skip_ws_bounds(y, 1, y.len() as int);
            assert(a >= 1);
            assert(b <= y.len() - 1);
        }
        assert forall|k: int| 0 <= k < h.text.len() implies h.text[k] != '\n' by {
            assert(h.text[k] == y[a + k]);
            assert(s[hh + a + k] == y[a + k]);
        }
    } else {
        let l = line_end(s, 0);
        let x = s.subrange(0, l);
        lemma_trim_shape(x);
        let a = crate::text::skip_ws(x, 0, x.len() as int);
        assert(a == 0);
        let b = crate::text::back_ws(x, 0, x.len() as int);
        if b == 0 {
            assert(is_ws(x[0]));
        }
        assert forall|k: int| 0 <= k < h.text.len() implies h.text[k] != '\n' by {
            assert(h.text[k] == x[k]);
        }
    }
}

/// A header written back as markdown reads back as the same header, with
/// nothing left over. (A `#` header whose text is empty writes back as `# `,
/// which is no header: the law holds of headers with some text.)
#[verifier::rlimit(30)]
pub proof fn lemma_header_round_trip(s: Seq<char>)
    requires
        spec_header(s) matches Some((h, _)) && h.text.len() > 0,
    ensures
        ({
            let h = spec_header(s).unwrap().0;
            let m = header_md(h, h.text);
            spec_header(m) == Some((h, m.len() as int))
        }),
{
    let h = spec_header(s).unwrap().0;
    let t = h.text;
    let m = header_md(h, t);
    lemma_header_text(s);
    lemma_trim_trimmed(t);
    if !h.alt_syntax {
        let lv = h.level as int;
        let lead = Seq::new(h.level, |_i: int| '#').push(' ');
        assert(m =~= lead + t + seq!['\n']);
        assert(lv >= 1) by {
            lemma_run_end(s, 0, '#');
        }
        lemma_run_end_at(m, 0, lv, '#');
        assert(m[lv + 1 + t.len()] == '\n');
        assert forall|j: int| lv + 1 <= j < lv + 1 + t.len() implies m[j] != '\n' by {
            assert(m[j] == t[j - lv - 1]);
        }
        lemma_line_end_at(m, lv + 1, lv + 1 + t.len());
        let y = m.subrange(lv, m.len() as int);
        assert(y =~= seq![' '] + t + seq!['\n']);
        assert(crate::text::skip_ws(y, 1, y.len() as int) == 1);
        assert(crate::text::skip_ws(y, 0, y.len() as int) == 1);
        assert(crate::text::back_ws(y, 1, y.len() - 1) == y.len() - 1);
        assert(crate::text::back_ws(y, 1, y.len() as int) == y.len() - 1);
        assert(y.subrange(1, y.len() - 1) =~= t);
    } else {
        let n = t.len() as int;
        let c = if h.level == 1 {
            '='
        } else {
            '-'
        };
        assert(m =~= t + seq!['\n', c, c] + seq!['\n']);
        assert forall|j: int| 0 <= j < n implies m[j] != '\n' && m[j] == s[j] by {
            assert(m[j] == t[j]);
        }
        lemma_line_end_at(m, 0, n);
        lemma_run_end_at(m, n + 1, n + 3, c);
        assert(r_headings2(m, 0) == Some(n + 4));
        if r_headings1(m, 0) is Some {
            let hm = run_end(m, 0, '#');
            lemma_run_end(m, 0, '#');
            assert(hm < n);
            assert(forall|j: int| 0 <= j < hm ==> m[j] == '#');
            lemma_run_end_at(s, 0, hm, '#');
            lemma_line_end(m, hm + 1);
            assert(line_end(m, hm + 1) == n) by {
                lemma_line_end_at(m, hm + 1, n);
            }
            let l = line_end(s, 0);
            lemma_line_end(s, 0);
            assert forall|j: int| hm + 1 <= j < l implies s[j] != '\n' by {}
            lemma_line_end_at(s, hm + 1, l);
            assert(r_headings1(s, 0) is Some);
        }
        assert(m.subrange(0, n) =~= t);
    }
}

} // verus!
