//! Block quotes: lines that start with `>`.
use super::grammar::{
    lemma_line_end, lemma_line_end_at, lemma_run_end_at, lemma_single_ref, m_run_end,
    m_single_ref, r_single_ref, run_end,
};
use super::MdOperation;
use crate::error::JTranslateError;
use crate::text::{
    chars_of, find_from, is_ws, lemma_find_from, lemma_trim_around, push_char, string_of, suffix,
    trim, trim_bounds, trimmed_string,
};
use vstd::prelude::*;
use vstd::string::*;

verus! {

/// One quoted line.
pub struct SingleLineRef {
    text: String,
}

impl View for SingleLineRef {
    type V = Seq<char>;

    closed spec fn view(&self) -> Seq<char> {
        self.text@
    }
}

/// Whether the UTF-8 encoding of `r` takes more than one byte: a character
/// from U+0080 on takes two or more.
pub open spec fn more_than_one_byte(r: Seq<char>) -> bool {
    r.len() >= 2 || (r.len() == 1 && (r[0] as u32) >= 0x80)
}

/// The quoted line at the start of `s`: its text after `>`, trimmed, and how
/// many characters it takes. When what follows the line is a single byte,
/// that byte is taken too.
pub open spec fn spec_single_ref(s: Seq<char>) -> Option<(Seq<char>, int)> {
    match r_single_ref(s, 0) {
        Some(e) => {
            let sp = run_end(s, 0, ' ');
            let n = if more_than_one_byte(s.skip(e)) {
                e
            } else {
                s.len() as int
            };
            Some((trim(s.subrange(sp + 1, e)), n))
        },
        None => None,
    }
}

pub proof fn lemma_single_ref_progress(s: Seq<char>)
    ensures
        spec_single_ref(s) matches Some((_, n)) ==> 2 <= n <= s.len(),
{
    lemma_single_ref(s, 0);
}

impl SingleLineRef {
    /// The quoted line at the start of `input`, and what follows it.
    pub fn parse(input: &str) -> (r: Option<(Self, &str)>)
        ensures
            match spec_single_ref(input@) {
                Some((t, n)) => r matches Some((x, left)) && x@ == t && left@ == input@.skip(n),
                None => r is None,
            },
    {
        let v = chars_of(input);
        match m_single_ref(&v, 0) {
            Some(e) => {
                let sp = m_run_end(&v, 0, ' ');
                proof {
                    lemma_line_end(v@, sp + 1);
                }
                let text = trimmed_string(&v, sp + 1, e);
                let rest = v.len() - e;
                let keep = rest >= 2 || (rest == 1 && (v[e] as u32) >= 0x80);
                assert(input@.skip(e as int).len() == rest);
                let left = if keep {
                    suffix(input, e)
                } else {
                    suffix(input, v.len())
                };
                Some((SingleLineRef { text }, left))
            },
            None => None,
        }
    }

    pub fn text(&self) -> (r: &str)
        ensures
            r@ == self@,
    {
        self.text.as_str()
    }
}

/// The quoted lines at the start of `s`: their texts, each followed by a
/// line end, and how many characters they take.
pub open spec fn refs_collect(s: Seq<char>) -> (Seq<char>, int)
    decreases s.len(),
{
    match spec_single_ref(s) {
        Some((t, n)) => {
            proof {
                lemma_single_ref_progress(s);
            }
            let rest = refs_collect(s.skip(n));
            (t + seq!['\n'] + rest.0, n + rest.1)
        },
        None => (Seq::empty(), 0),
    }
}

/// The block quote at the start of `s`: the texts of its lines, one per
/// line, trimmed; and how many characters it takes. There is none when that
/// text is empty.
pub open spec fn spec_multiple_ref(s: Seq<char>) -> Option<(Seq<char>, int)> {
    let (b, n) = refs_collect(s);
    if trim(b).len() == 0 {
        None
    } else {
        Some((trim(b), n))
    }
}

/// `x` with `"> "` after each line end.
pub open spec fn quote_lines(x: Seq<char>) -> Seq<char>
    decreases x.len(),
{
    if x.len() == 0 {
        Seq::empty()
    } else {
        quote_lines(x.drop_last()) + if x.last() == '\n' {
            seq!['\n', '>', ' ']
        } else {
            seq![x.last()]
        }
    }
}

/// The markdown of a block quote whose text is `x`: each line of `x` after `> `.
pub open spec fn quote_md(x: Seq<char>) -> Seq<char> {
    seq!['>', ' '] + quote_lines(x) + seq!['\n']
}

/// A block quote: the texts of its lines, one per line.
pub struct MultipleLineRef {
    buf: String,
}

impl View for MultipleLineRef {
    type V = Seq<char>;

    closed spec fn view(&self) -> Seq<char> {
        self.buf@
    }
}

impl MultipleLineRef {
    /// The block quote at the start of `input`, and what follows it.
    pub fn parse(input: &str) -> (r: Option<(Self, &str)>)
        ensures
            match spec_multiple_ref(input@) {
                Some((t, n)) => r matches Some((x, left)) && x@ == t && left@ == input@.skip(n),
                None => r is None,
            },
    {
        let mut left = input;
        let mut buf = String::new();
        let ghost mut used: int = 0;
        loop
            invariant
                0 <= used <= input@.len(),
                left@ == input@.skip(used),
                refs_collect(input@) == (buf@ + refs_collect(left@).0, used + refs_collect(
                    left@,
                ).1),
            ensures
                0 <= used <= input@.len(),
                left@ == input@.skip(used),
                refs_collect(input@) == (buf@, used),
            decreases left@.len(),
        {
            proof {
                lemma_single_ref_progress(left@);
            }
            match SingleLineRef::parse(left) {
                Some((single_ref, l)) => {
                    let ghost n = spec_single_ref(left@).unwrap().1;
                    let ghost old_buf = buf@;
                    buf.append(single_ref.text());
                    push_char(&mut buf, '\n');
                    proof {
                        assert(input@.skip(used).skip(n) =~= input@.skip(used + n));
                        assert(buf@ + refs_collect(l@).0 =~= old_buf + (single_ref@ + seq!['\n']
                            + refs_collect(l@).0));
                        used = used + n;
                    }
                    left = l;
                },
                None => {
                    assert(buf@ + Seq::<char>::empty() =~= buf@);
                    break ;
                },
            }
        }
        let b = chars_of(buf.as_str());
        let (i, j) = trim_bounds(&b, 0, b.len());
        assert(b@.subrange(0, b.len() as int) =~= b@);
        if i == j {
            None
        } else {
            Some((MultipleLineRef { buf: string_of(&b, i, j) }, left))
        }
    }
}

impl MdOperation for MultipleLineRef {
    open spec fn text_view(&self) -> Seq<char> {
        self@
    }

    open spec fn md_view(&self, body: Seq<char>) -> Seq<char> {
        quote_md(body)
    }

    fn text(&self) -> (r: &str) {
        self.buf.as_str()
    }

    fn to_md_str(&self, translation: Option<&str>) -> (r: Result<String, JTranslateError>) {
        let body = match translation {
            Some(t) => t,
            None => self.buf.as_str(),
        };
        let b = chars_of(body);
        let mut result = String::new();
        push_char(&mut result, '>');
        push_char(&mut result, ' ');
        let mut i: usize = 0;
        while i < b.len()
            invariant
                i <= b.len(),
                result@ == seq!['>', ' '] + quote_lines(b@.take(i as int)),
            decreases b.len() - i,
        {
            let c = b[i];
            if c == '\n' {
                push_char(&mut result, '\n');
                push_char(&mut result, '>');
                push_char(&mut result, ' ');
            } else {
                push_char(&mut result, c);
            }
            proof {
                assert(b@.take(i + 1).drop_last() =~= b@.take(i as int));
            }
            i = i + 1;
            assert(result@ =~= seq!['>', ' '] + quote_lines(b@.take(i as int)));
        }
        push_char(&mut result, '\n');
        assert(b@.take(b.len() as int) =~= b@);
        Ok(result)
    }
}

/// `x` with each of its lines trimmed, each followed by a line end.
pub open spec fn trim_lines(x: Seq<char>) -> Seq<char>
    decreases x.len(),
{
    let k = find_from(x, 0, '\n');
    if k < x.len() {
        proof {
            lemma_find_from(x, 0, '\n');
        }
        trim(x.subrange(0, k)) + seq!['\n'] + trim_lines(x.subrange(k + 1, x.len() as int))
    } else {
        trim(x) + seq!['\n']
    }
}

proof fn lemma_quote_lines_concat(a: Seq<char>, b: Seq<char>)
    ensures
        quote_lines(a + b) == quote_lines(a) + quote_lines(b),
    decreases b.len(),
{
    if b.len() == 0 {
        assert(a + b =~= a);
        assert(quote_lines(a) + Seq::<char>::empty() =~= quote_lines(a));
    } else {
        assert((a + b).drop_last() =~= a + b.drop_last());
        assert((a + b).last() == b.last());
        lemma_quote_lines_concat(a, b.drop_last());
        let tail = if b.last() == '\n' {
            seq!['\n', '>', ' ']
        } else {
            seq![b.last()]
        };
        assert(quote_lines(a) + quote_lines(b.drop_last()) + tail =~= quote_lines(a) + (
        quote_lines(b.drop_last()) + tail));
    }
}

proof fn lemma_quote_lines_plain(l: Seq<char>)
    requires
        forall|k: int| 0 <= k < l.len() ==> l[k] != '\n',
    ensures
        quote_lines(l) == l,
    decreases l.len(),
{
    if l.len() > 0 {
        lemma_quote_lines_plain(l.drop_last());
        assert(l.drop_last().push(l.last()) =~= l);
    }
}

/// Reading back the markdown of a block quote gives its lines, each trimmed,
/// and takes all of that markdown.
pub proof fn lemma_refs_of_quote_md(x: Seq<char>)
    ensures
        refs_collect(quote_md(x)) == (trim_lines(x), quote_md(x).len() as int),
    decreases x.len(),
{
    let m = quote_md(x);
    let k = find_from(x, 0, '\n');
    lemma_find_from(x, 0, '\n');
    crate::text::lemma_find_from_chars(x, 0, '\n');
    let l = x.subrange(0, k);
    assert forall|j: int| 0 <= j < l.len() implies l[j] != '\n' by {}
    lemma_quote_lines_plain(l);
    let first = seq!['>', ' '] + l + seq!['\n'];
    let rest: Seq<char> = if k < x.len() {
        let t = x.subrange(k + 1, x.len() as int);
        assert(x =~= l + seq!['\n'] + t);
        lemma_quote_lines_concat(l + seq!['\n'], t);
        lemma_quote_lines_concat(l, seq!['\n']);
        assert(quote_lines(seq!['\n']) =~= seq!['\n', '>', ' ']) by {
            let nl = seq!['\n'];
            assert(nl.drop_last() =~= Seq::<char>::empty());
            assert(nl.last() == '\n');
            assert(quote_lines(Seq::<char>::empty()) == Seq::<char>::empty());
            assert(Seq::<char>::empty() + seq!['\n', '>', ' '] =~= seq!['\n', '>', ' ']);
        }
        assert(m =~= first + quote_md(t));
        quote_md(t)
    } else {
        assert(x =~= l);
        assert(m =~= first);
        Seq::empty()
    };
    assert(m =~= first + rest);
    let e: int = l.len() as int + 3;
    lemma_run_end_at(m, 0, 0, ' ');
    assert forall|j: int| 1 <= j < e - 1 implies m[j] != '\n' by {
        if j > 1 {
            assert(m[j] == l[j - 2]);
        }
    }
    lemma_line_end_at(m, 1, e - 1);
    assert(r_single_ref(m, 0) == Some(e));
    assert(m.subrange(1, e) =~= seq![' '] + l + seq!['\n']);
    lemma_trim_around(' ', l, '\n');
    assert(m.skip(e) =~= rest);
    if k < x.len() {
        let t = x.subrange(k + 1, x.len() as int);
        assert(spec_single_ref(m) == Some((trim(l), e)));
        assert(m.skip(e) == quote_md(t));
        lemma_refs_of_quote_md(t);
        assert(refs_collect(m) == (trim(l) + seq!['\n'] + refs_collect(quote_md(t)).0, e
            + refs_collect(quote_md(t)).1));
        assert(trim_lines(x) =~= trim(l) + seq!['\n'] + trim_lines(t));
        assert(m.len() == e + quote_md(t).len());
    } else {
        assert(spec_single_ref(m) == Some((trim(l), m.len() as int)));
        assert(m.skip(m.len() as int) =~= Seq::<char>::empty());
        assert(run_end(Seq::<char>::empty(), 0, ' ') == 0);
        assert(spec_single_ref(Seq::<char>::empty()) is None);
        assert(refs_collect(Seq::<char>::empty()) == (Seq::<char>::empty(), 0int));
        assert(refs_collect(m) == (trim(l) + seq!['\n'] + Seq::<char>::empty(), m.len() as int));
        assert(trim(l) == trim(x));
        assert(trim_lines(x) =~= trim(l) + seq!['\n']);
        assert(trim(l) + seq!['\n'] + Seq::<char>::empty() =~= trim(l) + seq!['\n']);
    }
}

/// A block quote written back as markdown reads back as the same quote,
/// taking all of that markdown, when no line of its text has white space at
/// its ends (which the text of a block quote read from markdown never has).
pub proof fn lemma_quote_round_trip(t: Seq<char>)
    requires
        t.len() > 0,
        !is_ws(t[0]),
        !is_ws(t.last()),
        trim_lines(t) == t + seq!['\n'],
    ensures
        spec_multiple_ref(quote_md(t)) == Some((t, quote_md(t).len() as int)),
{
    lemma_refs_of_quote_md(t);
    crate::text::lemma_trim_trimmed(t);
    let y = t + seq!['\n'];
    assert forall|m: int| t.len() <= m < y.len() implies is_ws(#[trigger] y[m]) by {}
    assert(y[t.len() - 1] == t.last());
    crate::text::lemma_trim_at(y, 0, t.len() as int);
    assert(y.subrange(0, t.len() as int) =~= t);
}

/// `find_from` on a line, a line end and more finds that line end.
proof fn lemma_find_line(l: Seq<char>, r: Seq<char>)
    requires
        forall|k: int| 0 <= k < l.len() ==> l[k] != '\n',
    ensures
        ({
            let x = l + seq!['\n'] + r;
            &&& find_from(x, 0, '\n') == l.len()
            &&& x.subrange(0, l.len() as int) == l
            &&& x.subrange(l.len() as int + 1, x.len() as int) == r
        }),
{
    let x = l + seq!['\n'] + r;
    assert forall|k: int| 0 <= k < l.len() implies x[k] != '\n' by {
        assert(x[k] == l[k]);
    }
    crate::text::lemma_find_from_at(x, 0, l.len() as int, '\n');
    assert(x.subrange(0, l.len() as int) =~= l);
    assert(x.subrange(l.len() as int + 1, x.len() as int) =~= r);
}

/// The first line of `x` and what follows it, when `x` holds a line end.
proof fn lemma_split_first_line(x: Seq<char>)
    requires
        find_from(x, 0, '\n') < x.len(),
    ensures
        ({
            let k = find_from(x, 0, '\n');
            &&& x == x.subrange(0, k) + seq!['\n'] + x.subrange(k + 1, x.len() as int)
            &&& forall|j: int| 0 <= j < k ==> x[j] != '\n'
        }),
{
    let k = find_from(x, 0, '\n');
    lemma_find_from(x, 0, '\n');
    crate::text::lemma_find_from_chars(x, 0, '\n');
    assert(x =~= x.subrange(0, k) + seq!['\n'] + x.subrange(k + 1, x.len() as int));
}

/// Every line of `x` is trimmed.
pub open spec fn lines_trimmed(x: Seq<char>) -> bool {
    trim_lines(x) == x + seq!['\n']
}

proof fn lemma_lines_trimmed_cons(l: Seq<char>, r: Seq<char>)
    requires
        forall|k: int| 0 <= k < l.len() ==> l[k] != '\n',
    ensures
        lines_trimmed(l + seq!['\n'] + r) <==> trim(l) == l && lines_trimmed(r),
{
    lemma_find_line(l, r);
    let x = l + seq!['\n'] + r;
    assert(trim_lines(x) == trim(l) + seq!['\n'] + trim_lines(r));
    if lines_trimmed(x) {
        assert(trim(l) + seq!['\n'] + trim_lines(r) == l + seq!['\n'] + (r + seq!['\n'])) by {
            assert(x + seq!['\n'] =~= l + seq!['\n'] + (r + seq!['\n']));
        }
        assert((trim(l) + seq!['\n'] + trim_lines(r)).len() == (l + seq!['\n'] + (r + seq![
            '\n',
        ])).len());
        crate::text::lemma_trim_shape(l);
        assert(trim(l).len() <= l.len());
        assert(trim_lines(r).len() >= 1) by {
            lemma_trim_lines_len(r);
        }
        if trim(l).len() != l.len() {
            assert(false) by {
                let lhs = trim(l) + seq!['\n'] + trim_lines(r);
                let rhs = l + seq!['\n'] + (r + seq!['\n']);
                let q = trim(l).len() as int;
                assert(lhs[q] == '\n');
                assert(rhs[q] == l[q]);
            }
        }
        assert(trim(l) =~= l) by {
            let lhs = trim(l) + seq!['\n'] + trim_lines(r);
            let rhs = l + seq!['\n'] + (r + seq!['\n']);
            assert forall|j: int| 0 <= j < l.len() implies trim(l)[j] == l[j] by {
                assert(lhs[j] == rhs[j]);
            }
        }
        assert(trim_lines(r) =~= r + seq!['\n']) by {
            let lhs = trim(l) + seq!['\n'] + trim_lines(r);
            let rhs = l + seq!['\n'] + (r + seq!['\n']);
            let o = l.len() + 1;
            assert forall|j: int| 0 <= j < trim_lines(r).len() implies trim_lines(r)[j] == (r
                + seq!['\n'])[j] by {
                assert(lhs[o + j] == rhs[o + j]);
            }
        }
    }
    if trim(l) == l && lines_trimmed(r) {
        assert(trim_lines(x) =~= x + seq!['\n']);
    }
}

proof fn lemma_trim_lines_len(x: Seq<char>)
    ensures
        trim_lines(x).len() >= 1,
    decreases x.len(),
{
    let k = find_from(x, 0, '\n');
    if k < x.len() {
        lemma_find_from(x, 0, '\n');
        lemma_trim_lines_len(x.subrange(k + 1, x.len() as int));
    }
}

/// A line whose text is trimmed.
proof fn lemma_lines_trimmed_single(l: Seq<char>)
    requires
        forall|k: int| 0 <= k < l.len() ==> l[k] != '\n',
    ensures
        lines_trimmed(l) <==> trim(l) == l,
{
    crate::text::lemma_find_from_at(l, 0, l.len() as int, '\n');
    assert(trim_lines(l) == trim(l) + seq!['\n']);
    if lines_trimmed(l) {
        assert(trim(l) + seq!['\n'] == l + seq!['\n']);
        assert((trim(l) + seq!['\n']).len() == (l + seq!['\n']).len());
        assert(trim(l) =~= l) by {
            assert forall|j: int| 0 <= j < trim(l).len() implies trim(l)[j] == l[j] by {
                assert((trim(l) + seq!['\n'])[j] == (l + seq!['\n'])[j]);
            }
        }
    }
}

/// In text whose lines are trimmed, white space at the start is a line end.
proof fn lemma_lines_trimmed_first(x: Seq<char>)
    requires
        lines_trimmed(x),
        x.len() > 0,
        is_ws(x[0]),
    ensures
        x[0] == '\n',
        lines_trimmed(x.drop_first()),
{
    let k = find_from(x, 0, '\n');
    lemma_find_from(x, 0, '\n');
    crate::text::lemma_find_from_chars(x, 0, '\n');
    if k < x.len() {
        lemma_split_first_line(x);
        let l = x.subrange(0, k);
        let r = x.subrange(k + 1, x.len() as int);
        lemma_lines_trimmed_cons(l, r);
        if k > 0 {
            crate::text::lemma_trim_shape(l);
            assert(l[0] == x[0]);
            assert(false);
        }
        assert(x.drop_first() =~= r);
    } else {
        assert(x.subrange(0, k) =~= x);
        lemma_lines_trimmed_single(x);
        crate::text::lemma_trim_shape(x);
        assert(false);
    }
}

/// In text whose lines are trimmed, white space at the end is a line end.
proof fn lemma_lines_trimmed_last(x: Seq<char>)
    requires
        lines_trimmed(x),
        x.len() > 0,
        is_ws(x.last()),
    ensures
        x.last() == '\n',
        lines_trimmed(x.drop_last()),
    decreases x.len(),
{
    let k = find_from(x, 0, '\n');
    lemma_find_from(x, 0, '\n');
    crate::text::lemma_find_from_chars(x, 0, '\n');
    if k < x.len() {
        lemma_split_first_line(x);
        let l = x.subrange(0, k);
        let r = x.subrange(k + 1, x.len() as int);
        lemma_lines_trimmed_cons(l, r);
        if r.len() == 0 {
            assert(x.last() == '\n');
            assert(x.drop_last() =~= l);
            lemma_lines_trimmed_single(l);
        } else {
            assert(r.last() == x.last());
            lemma_lines_trimmed_last(r);
            assert(x.drop_last() =~= l + seq!['\n'] + r.drop_last());
            lemma_lines_trimmed_cons(l, r.drop_last());
        }
    } else {
        assert(x.subrange(0, k) =~= x);
        lemma_lines_trimmed_single(x);
        crate::text::lemma_trim_shape(x);
        assert(false);
    }
}

/// Trimming text whose lines are trimmed keeps its lines trimmed.
proof fn lemma_lines_trimmed_trim(x: Seq<char>)
    requires
        lines_trimmed(x),
    ensures
        lines_trimmed(trim(x)),
    decreases x.len(),
{
    if x.len() == 0 {
        assert(trim(x) =~= x) by {
            assert(crate::text::skip_ws(x, 0, 0) == 0);
        }
    } else if is_ws(x[0]) {
        lemma_lines_trimmed_first(x);
        crate::text::lemma_trim_drop_first(x);
        lemma_lines_trimmed_trim(x.drop_first());
    } else if is_ws(x.last()) {
        lemma_lines_trimmed_last(x);
        crate::text::lemma_trim_drop_last(x);
        lemma_lines_trimmed_trim(x.drop_last());
    } else {
        crate::text::lemma_trim_trimmed(x);
    }
}

/// The text of a quoted line is trimmed and is one line.
proof fn lemma_single_ref_text(s: Seq<char>)
    requires
        spec_single_ref(s) is Some,
    ensures
        ({
            let t = spec_single_ref(s).unwrap().0;
            &&& trim(t) == t
            &&& forall|k: int| 0 <= k < t.len() ==> t[k] != '\n'
        }),
{
    let e = r_single_ref(s, 0).unwrap();
    let sp = run_end(s, 0, ' ');
    super::grammar::lemma_run_end(s, 0, ' ');
    lemma_line_end(s, sp + 1);
    let y = s.subrange(sp + 1, e);
    crate::text::lemma_trim_shape(y);
    crate::text::lemma_trim_idempotent(y);
    let a = crate::text::skip_ws(y, 0, y.len() as int);
    let b = crate::text::back_ws(y, a, y.len() as int);
    assert(y[y.len() - 1] == '\n');
    assert(is_ws(y[y.len() - 1]));
    if a < b {
        assert(b <= y.len() - 1);
    }
    let t = trim(y);
    assert forall|k: int| 0 <= k < t.len() implies t[k] != '\n' by {
        assert(t[k] == y[a + k]);
        assert(y[a + k] == s[sp + 1 + a + k]);
    }
}

/// The lines that block quote lines are read into are trimmed.
proof fn lemma_refs_lines_trimmed(s: Seq<char>)
    ensures
        lines_trimmed(refs_collect(s).0),
    decreases s.len(),
{
    lemma_single_ref_progress(s);
    match spec_single_ref(s) {
        Some((t, n)) => {
            lemma_refs_lines_trimmed(s.skip(n));
            lemma_single_ref_text(s);
            lemma_lines_trimmed_cons(t, refs_collect(s.skip(n)).0);
        },
        None => {
            assert(lines_trimmed(Seq::<char>::empty())) by {
                let x = Seq::<char>::empty();
                crate::text::lemma_find_from_at(x, 0, 0, '\n');
                assert(trim(x) =~= x) by {
                    assert(crate::text::skip_ws(x, 0, 0) == 0);
                }
            }
        },
    }
}

/// A block quote read from markdown, written back as markdown, reads back
/// as the same quote, taking all of that markdown.
pub proof fn lemma_parsed_quote_round_trip(s: Seq<char>)
    requires
        spec_multiple_ref(s) is Some,
    ensures
        ({
            let t = spec_multiple_ref(s).unwrap().0;
            spec_multiple_ref(quote_md(t)) == Some((t, quote_md(t).len() as int))
        }),
{
    let b = refs_collect(s).0;
    let t = trim(b);
    lemma_refs_lines_trimmed(s);
    lemma_lines_trimmed_trim(b);
    crate::text::lemma_trim_shape(b);
    lemma_quote_round_trip(t);
}

} // verus!
