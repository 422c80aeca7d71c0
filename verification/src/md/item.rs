//! List items: `* text`, `- text`, `+ text` and `1. text`, indented by two
//! spaces per level.
use super::grammar::{
    digits_end, is_bullet, is_digit, lemma_digits_end_at, lemma_line_end_at, lemma_run_end_at,
    line_end, m_digits_end, m_non_number_item, m_number_item, m_run_end, r_item_text,
    r_non_number_item, r_number_item, run_end,
};
use super::MdOperation;
use crate::error::JTranslateError;
use crate::text::{chars_of, lemma_trim_around, line_of, suffix, trim, trimmed_string};
use vstd::prelude::*;

verus! {

/// A list item: its text, its mark (none for a numbered item) and its level.
pub struct Item {
    text: String,
    mark: Option<char>,
    level: usize,
}

/// What a list item holds.
pub struct ItemView {
    pub text: Seq<char>,
    pub mark: Option<char>,
    pub level: nat,
}

impl View for Item {
    type V = ItemView;

    closed spec fn view(&self) -> ItemView {
        ItemView { text: self.text@, mark: self.mark, level: self.level as nat }
    }
}

/// The list item at the start of `s`, and how many characters it takes.
/// Its level is one more than half the spaces before its mark, its text the
/// rest of its line, trimmed.
pub open spec fn spec_item(s: Seq<char>) -> Option<(ItemView, int)> {
    let sp = run_end(s, 0, ' ');
    match r_number_item(s, 0) {
        Some(e) => {
            let d = digits_end(s, sp);
            Some(
                (
                    ItemView {
                        text: trim(s.subrange(d + 1, e)),
                        mark: None,
                        level: (sp / 2 + 1) as nat,
                    },
                    e,
                ),
            )
        },
        None => match r_non_number_item(s, 0) {
            Some(e) => Some(
                (
                    ItemView {
                        text: trim(s.subrange(sp + 1, e)),
                        mark: Some(s[sp]),
                        level: (sp / 2 + 1) as nat,
                    },
                    e,
                ),
            ),
            None => None,
        },
    }
}

impl Item {
    /// The list item at the start of `input`, and what follows it.
    pub fn parse(input: &str) -> (r: Option<(Self, &str)>)
        ensures
            match spec_item(input@) {
                Some((it, n)) => r matches Some((x, left)) && x@ == it && left@ == input@.skip(n),
                None => r is None,
            },
    {
        let v = chars_of(input);
        let sp = m_run_end(&v, 0, ' ');
        if let Some(e) = m_number_item(&v, 0) {
            let d = m_digits_end(&v, sp);
            let text = trimmed_string(&v, d + 1, e);
            return Some((Item { text, mark: None, level: sp / 2 + 1 }, suffix(input, e)));
        }
        match m_non_number_item(&v, 0) {
            Some(e) => {
                let text = trimmed_string(&v, sp + 1, e);
                Some((Item { text, mark: Some(v[sp]), level: sp / 2 + 1 }, suffix(input, e)))
            },
            None => None,
        }
    }

    /// Whether the item is numbered.
    pub fn number_item(&self) -> (r: bool)
        ensures
            r == (self@.mark is None),
    {
        self.mark.is_none()
    }

    pub fn level(&self) -> (r: usize)
        ensures
            r == self@.level,
    {
        self.level
    }

    pub fn mark(&self) -> (r: Option<char>)
        ensures
            r == self@.mark,
    {
        self.mark
    }
}

impl MdOperation for Item {
    open spec fn text_view(&self) -> Seq<char> {
        self@.text
    }

    open spec fn md_view(&self, body: Seq<char>) -> Seq<char> {
        body.push('\n')
    }

    fn text(&self) -> (r: &str) {
        self.text.as_str()
    }

    fn to_md_str(&self, translation: Option<&str>) -> (r: Result<String, JTranslateError>) {
        let body = match translation {
            Some(t) => t,
            None => self.text.as_str(),
        };
        Ok(line_of(body))
    }
}

/// `k` spaces.
pub open spec fn spaces(k: nat) -> Seq<char> {
    Seq::new(k, |_i: int| ' ')
}

/// The item text of a line: `t` then a line end, read from `p`.
proof fn lemma_item_line(s: Seq<char>, p: int, t: Seq<char>)
    requires
        0 <= p,
        p + t.len() + 1 <= s.len(),
        t.len() > 0,
        forall|j: int| 0 <= j < t.len() ==> t[j] != '\n',
        forall|j: int| 0 <= j < t.len() ==> s[p + j] == t[j],
        s[p + t.len()] == '\n',
    ensures
        r_item_text(s, p) == Some(p + t.len() + 1),
{
    assert forall|j: int| p <= j < p + t.len() implies s[j] != '\n' by {
        assert(s[j] == t[j - p]);
    }
    lemma_line_end_at(s, p, p + t.len());
}

/// An item marked `*`, `-` or `+` after `k` spaces: its level is `k / 2 + 1`
/// (two spaces per level, an odd space not counting), its mark is `c`, its
/// text is what follows the mark on its line, trimmed, and it takes its
/// line.
pub proof fn lemma_bullet_item(k: nat, c: char, t: Seq<char>, rest: Seq<char>)
    requires
        is_bullet(c),
        t.len() > 0,
        forall|j: int| 0 <= j < t.len() ==> t[j] != '\n',
    ensures
        spec_item(spaces(k) + seq![c, ' '] + t + seq!['\n'] + rest) == Some(
            (
                ItemView { text: trim(t), mark: Some(c), level: k / 2 + 1 },
                (k + t.len() + 3) as int,
            ),
        ),
{
    let s = spaces(k) + seq![c, ' '] + t + seq!['\n'] + rest;
    let ki = k as int;
    assert forall|j: int| 0 <= j < ki implies s[j] == ' ' by {}
    lemma_run_end_at(s, 0, ki, ' ');
    assert(s[ki] == c);
    lemma_digits_end_at(s, ki, ki);
    assert(r_number_item(s, 0) is None);
    assert forall|j: int| 0 <= j < t.len() implies s[ki + 2 + j] == t[j] by {}
    lemma_item_line(s, ki + 2, t);
    assert(r_non_number_item(s, 0) == Some(ki + t.len() + 3));
    assert(s.subrange(ki + 1, ki + t.len() + 3) =~= seq![' '] + t + seq!['\n']);
    lemma_trim_around(' ', t, '\n');
}

/// A numbered item (digits `d`, then `.`) after `k` spaces: its level is
/// `k / 2 + 1`, as for a marked item with the same indentation; it has no
/// mark; its text is what follows `. ` on its line, trimmed; it takes its line.
pub proof fn lemma_number_item(k: nat, d: Seq<char>, t: Seq<char>, rest: Seq<char>)
    requires
        d.len() > 0,
        forall|j: int| 0 <= j < d.len() ==> is_digit(d[j]),
        t.len() > 0,
        forall|j: int| 0 <= j < t.len() ==> t[j] != '\n',
    ensures
        spec_item(spaces(k) + d + seq!['.', ' '] + t + seq!['\n'] + rest) == Some(
            (
                ItemView { text: trim(t), mark: None, level: k / 2 + 1 },
                (k + d.len() + t.len() + 3) as int,
            ),
        ),
{
    let s = spaces(k) + d + seq!['.', ' '] + t + seq!['\n'] + rest;
    let ki = k as int;
    let dl = d.len() as int;
    assert forall|j: int| 0 <= j < ki implies s[j] == ' ' by {}
    assert(s[ki] == d[0]);
    lemma_run_end_at(s, 0, ki, ' ');
    assert forall|j: int| ki <= j < ki + dl implies is_digit(s[j]) by {
        assert(s[j] == d[j - ki]);
    }
    assert(s[ki + dl] == '.');
    lemma_digits_end_at(s, ki, ki + dl);
    assert forall|j: int| 0 <= j < t.len() implies s[ki + dl + 2 + j] == t[j] by {}
    lemma_item_line(s, ki + dl + 2, t);
    assert(r_number_item(s, 0) == Some(ki + dl + t.len() + 3));
    assert(s.subrange(ki + dl + 1, ki + dl + t.len() + 3) =~= seq![' '] + t + seq!['\n']);
    lemma_trim_around(' ', t, '\n');
}

} // verus!
