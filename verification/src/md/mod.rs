pub mod bold;
pub mod grammar;
pub mod header;
pub mod italic;
pub mod item;
pub mod normal;
pub mod paragraph;
pub mod reference;

pub use header::Header;
pub use item::Item;
pub use paragraph::Paragraph;
pub use reference::MultipleLineRef;

use crate::error::JTranslateError;
use crate::text::{suffix, trim};
use grammar::{
    at, digits_end, lemma_line_end, lemma_run_end, line_end, para_rest,
    r_item_text, r_para_line, r_underline, run_end,
};
use header::{spec_header, HeaderView};
use item::{spec_item, ItemView};
use paragraph::spec_paragraph;
use reference::{lemma_single_ref_progress, refs_collect, spec_multiple_ref};
use vstd::prelude::*;
use vstd::string::*;

verus! {

/// The text that stands in an element's markdown: a translation of it when
/// one is given, the element's own text otherwise.
pub open spec fn body_of(own: Seq<char>, translation: Option<&str>) -> Seq<char> {
    match translation {
        Some(t) => t@,
        None => own,
    }
}

/// What every markdown element offers: its text, and its markdown.
pub trait MdOperation {
    /// The element's text.
    spec fn text_view(&self) -> Seq<char>;

    /// The markdown of the element when `body` stands for its text.
    spec fn md_view(&self, body: Seq<char>) -> Seq<char>;

    /// The element's text.
    fn text(&self) -> (r: &str)
        ensures
            r@ == self.text_view(),
    ;

    /// The element written back as markdown, with `translation` in place of
    /// its text when one is given.
    fn to_md_str(&self, translation: Option<&str>) -> (r: Result<String, JTranslateError>)
        ensures
            r matches Ok(s) && s@ == self.md_view(body_of(self.text_view(), translation)),
    ;
}

/// An element of a markdown document.
pub enum MdEntry {
    Header(Header),
    Paragraph(Paragraph),
    Item(Item),
    MultipleLineRef(MultipleLineRef),
    NewLine,
}

/// What an element of a markdown document holds.
pub enum MdEntryView {
    Header(HeaderView),
    Paragraph(Seq<char>),
    Item(ItemView),
    MultipleLineRef(Seq<char>),
    NewLine,
}

impl View for MdEntry {
    type V = MdEntryView;

    open spec fn view(&self) -> MdEntryView {
        match self {
            MdEntry::Header(h) => MdEntryView::Header(h@),
            MdEntry::Paragraph(p) => MdEntryView::Paragraph(p@),
            MdEntry::Item(i) => MdEntryView::Item(i@),
            MdEntry::MultipleLineRef(r) => MdEntryView::MultipleLineRef(r@),
            MdEntry::NewLine => MdEntryView::NewLine,
        }
    }
}

/// What a sequence of elements holds.
pub open spec fn entries_view(v: Seq<MdEntry>) -> Seq<MdEntryView> {
    v.map_values(|e: MdEntry| e@)
}

/// `pre` before the elements of `rest`, if there are any.
pub open spec fn prepend(pre: Seq<MdEntryView>, rest: Option<Seq<MdEntryView>>) -> Option<
    Seq<MdEntryView>,
> {
    match rest {
        Some(r) => Some(pre + r),
        None => None,
    }
}

proof fn lemma_underline(s: Seq<char>, p: int)
    requires
        0 <= p <= s.len(),
    ensures
        r_underline(s, p) matches Some(e) ==> p < e <= s.len(),
{
    if at(s, p, '=') || at(s, p, '-') {
        lemma_run_end(s, p, s[p]);
    }
}

proof fn lemma_item_text(s: Seq<char>, p: int)
    requires
        0 <= p <= s.len(),
    ensures
        r_item_text(s, p) matches Some(e) ==> p < e <= s.len(),
{
    lemma_line_end(s, p);
}

proof fn lemma_para_rest(s: Seq<char>, p: int)
    requires
        0 <= p <= s.len(),
    ensures
        p <= para_rest(s, p) <= s.len(),
    decreases s.len() - p,
{
    if 0 <= p && at(s, p, '\n') && r_para_line(s, p + 1) is Some {
        grammar::lemma_para_line(s, p + 1);
        lemma_para_rest(s, r_para_line(s, p + 1).unwrap());
    }
}

proof fn lemma_refs_collect(s: Seq<char>)
    ensures
        0 <= refs_collect(s).1 <= s.len(),
        refs_collect(s).1 == 0 ==> refs_collect(s).0.len() == 0,
    decreases s.len(),
{
    lemma_single_ref_progress(s);
    if let Some((t, n)) = reference::spec_single_ref(s) {
        lemma_refs_collect(s.skip(n));
    }
}

/// Each element that starts a document takes at least one of its characters.
pub proof fn lemma_entry_progress(s: Seq<char>)
    ensures
        spec_header(s) matches Some((_, n)) ==> 0 < n <= s.len(),
        spec_paragraph(s) matches Some((_, n)) ==> 0 <= n <= s.len(),
        spec_item(s) matches Some((_, n)) ==> 0 < n <= s.len(),
        spec_multiple_ref(s) matches Some((_, n)) ==> 0 < n <= s.len(),
{
    lemma_run_end(s, 0, '#');
    let h = run_end(s, 0, '#');
    if h > 0 && at(s, h, ' ') {
        lemma_line_end(s, h + 1);
    }
    lemma_line_end(s, 0);
    let l = line_end(s, 0);
    if l < s.len() {
        lemma_underline(s, l + 1);
    }
    grammar::lemma_para_line(s, 0);
    if let Some(e0) = r_para_line(s, 0) {
        lemma_para_rest(s, e0);
    }
    lemma_run_end(s, 0, ' ');
    let sp = run_end(s, 0, ' ');
    grammar::lemma_digits_end(s, sp);
    let d = digits_end(s, sp);
    if d + 2 <= s.len() {
        lemma_item_text(s, d + 2);
    }
    if sp + 2 <= s.len() {
        lemma_item_text(s, sp + 2);
    }
    lemma_refs_collect(s);
    if refs_collect(s).0.len() == 0 {
        assert(trim(refs_collect(s).0) =~= Seq::<char>::empty());
    }
}

/// The elements of a markdown document, from its start: a `NewLine` for each
/// line end between elements, then the first of header, paragraph, list
/// item and block quote that starts what is left. There is none when none
/// of them does, and when a paragraph leaves all it matched to what follows
/// (a one-character paragraph that ends the document without a line end),
/// on which reading the document would not advance.
pub open spec fn md_entries(s: Seq<char>) -> Option<Seq<MdEntryView>>
    decreases s.len(),
{
    proof {
        lemma_entry_progress(s);
    }
    if s.len() == 0 {
        Some(Seq::empty())
    } else if s[0] == '\n' {
        prepend(seq![MdEntryView::NewLine], md_entries(s.drop_first()))
    } else if let Some((h, n)) = spec_header(s) {
        prepend(seq![MdEntryView::Header(h)], md_entries(s.skip(n)))
    } else if let Some((p, n)) = spec_paragraph(s) {
        if n > 0 {
            prepend(seq![MdEntryView::Paragraph(p)], md_entries(s.skip(n)))
        } else {
            None
        }
    } else if let Some((i, n)) = spec_item(s) {
        prepend(seq![MdEntryView::Item(i)], md_entries(s.skip(n)))
    } else if let Some((r, n)) = spec_multiple_ref(s) {
        prepend(seq![MdEntryView::MultipleLineRef(r)], md_entries(s.skip(n)))
    } else {
        None
    }
}

/// Where reading a document into elements stops when it has none: the part
/// of the document that is no element (or the paragraph at its end on which
/// reading would not advance). Empty when the document is made of elements.
pub open spec fn md_unread(s: Seq<char>) -> Seq<char>
    decreases s.len(),
{
    proof {
        lemma_entry_progress(s);
    }
    if s.len() == 0 {
        Seq::empty()
    } else if s[0] == '\n' {
        md_unread(s.drop_first())
    } else if let Some((h, n)) = spec_header(s) {
        md_unread(s.skip(n))
    } else if let Some((p, n)) = spec_paragraph(s) {
        if n > 0 {
            md_unread(s.skip(n))
        } else {
            s
        }
    } else if let Some((i, n)) = spec_item(s) {
        md_unread(s.skip(n))
    } else if let Some((r, n)) = spec_multiple_ref(s) {
        md_unread(s.skip(n))
    } else {
        s
    }
}

/// The elements of the markdown document `text`, or, where some part
/// of it is none of the elements, what is left from there on.
pub fn md_try_parse(text: &str) -> (r: Result<Vec<MdEntry>, &str>)
    ensures
        match md_entries(text@) {
            Some(es) => r matches Ok(v) && entries_view(v@) == es,
            None => r matches Err(rest) && rest@ == md_unread(text@),
        },
{
    let mut result: Vec<MdEntry> = Vec::new();
    let mut rest = text;
    loop
        invariant
            md_entries(text@) == prepend(entries_view(result@), md_entries(rest@)),
            md_unread(text@) == md_unread(rest@),
        decreases rest@.len(),
    {
        proof {
            lemma_entry_progress(rest@);
        }
        let ghost before = entries_view(result@);
        if rest.is_empty() {
            assert(before + Seq::<MdEntryView>::empty() =~= before);
            return Ok(result);
        }
        if rest.get_char(0) == '\n' {
            result.push(MdEntry::NewLine);
            proof {
                assert(rest@.skip(1) =~= rest@.drop_first());
            }
            rest = suffix(rest, 1);
        } else if let Some((h, l)) = Header::parse(rest) {
            result.push(MdEntry::Header(h));
            rest = l;
        } else if let Some((p, l)) = Paragraph::parse(rest) {
            if l.unicode_len() == rest.unicode_len() {
                return Err(rest);
            }
            result.push(MdEntry::Paragraph(p));
            rest = l;
        } else if let Some((i, l)) = Item::parse(rest) {
            result.push(MdEntry::Item(i));
            rest = l;
        } else if let Some((m, l)) = MultipleLineRef::parse(rest) {
            result.push(MdEntry::MultipleLineRef(m));
            rest = l;
        } else {
            return Err(rest);
        }
        proof {
            let last = result@.last()@;
            assert(entries_view(result@) =~= before + seq![last]);
            assert(before + (seq![last] + md_entries(rest@).unwrap_or(Seq::empty())) =~= (before
                + seq![last]) + md_entries(rest@).unwrap_or(Seq::empty()));
        }
    }
}

/// The elements of the markdown document `text`, which must be made of them.
pub fn md_parse(text: &str) -> (r: Result<Vec<MdEntry>, JTranslateError>)
    requires
        md_entries(text@) is Some,
    ensures
        r matches Ok(v) && Some(entries_view(v@)) == md_entries(text@),
{
    match md_try_parse(text) {
        Ok(v) => Ok(v),
        Err(_) => Ok(Vec::new()),
    }
}

/// Whether a file name is that of a markdown file: it ends with `.md`.
pub open spec fn is_md_name(s: Seq<char>) -> bool {
    s.len() >= 3 && s[s.len() - 3] == '.' && s[s.len() - 2] == 'm' && s[s.len() - 1] == 'd'
}

/// Whether `name` is that of a markdown file.
pub fn is_markdown_file(name: &str) -> (r: bool)
    ensures
        r == is_md_name(name@),
{
    let v = crate::text::chars_of(name);
    let n = v.len();
    n >= 3 && v[n - 3] == '.' && v[n - 2] == 'm' && v[n - 1] == 'd'
}

impl MdOperation for MdEntry {
    open spec fn text_view(&self) -> Seq<char> {
        match self {
            MdEntry::Header(h) => h.text_view(),
            MdEntry::Paragraph(p) => p.text_view(),
            MdEntry::Item(i) => i.text_view(),
            MdEntry::MultipleLineRef(r) => r.text_view(),
            MdEntry::NewLine => Seq::empty(),
        }
    }

    /// A line end between elements has no markdown of its own.
    open spec fn md_view(&self, body: Seq<char>) -> Seq<char> {
        match self {
            MdEntry::Header(h) => h.md_view(body),
            MdEntry::Paragraph(p) => p.md_view(body),
            MdEntry::Item(i) => i.md_view(body),
            MdEntry::MultipleLineRef(r) => r.md_view(body),
            MdEntry::NewLine => Seq::empty(),
        }
    }

    fn text(&self) -> (r: &str) {
        match self {
            MdEntry::Header(h) => h.text(),
            MdEntry::Paragraph(p) => p.text(),
            MdEntry::Item(i) => i.text(),
            MdEntry::MultipleLineRef(r) => r.text(),
            MdEntry::NewLine => {
                proof {
                    reveal_strlit("");
                }
                ""
            },
        }
    }

    fn to_md_str(&self, translation: Option<&str>) -> (r: Result<String, JTranslateError>) {
        match self {
            MdEntry::Header(h) => h.to_md_str(translation),
            MdEntry::Paragraph(p) => p.to_md_str(translation),
            MdEntry::Item(i) => i.to_md_str(translation),
            MdEntry::MultipleLineRef(r) => r.to_md_str(translation),
            MdEntry::NewLine => Ok(String::new()),
        }
    }
}

} // verus!
