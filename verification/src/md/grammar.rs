//! The markdown grammar, rule by rule.
//!
//! Each rule is a spec function `r_*(s, i)` that says where a match of the
//! rule that starts at index `i` of `s` ends (`None` when the rule does not
//! match there). The rules are ordered-choice, greedy, non-backtracking
//! patterns; a line ends at `'\n'`. Each rule has an executable matcher
//! proved to agree with it, and a public function that returns the matched
//! prefix of a `&str`.
use vstd::prelude::*;
use vstd::string::*;

verus! {

/// `s[i] == c`, with `i` in range.
pub open spec fn at(s: Seq<char>, i: int, c: char) -> bool {
    0 <= i < s.len() && s[i] == c
}

/// `s[i] == c` and `s[i + 1] == c`.
pub open spec fn pair_at(s: Seq<char>, i: int, c: char) -> bool {
    at(s, i, c) && at(s, i + 1, c)
}

pub open spec fn is_digit(c: char) -> bool {
    '0' <= c <= '9'
}

pub open spec fn is_alnum(c: char) -> bool {
    ||| 'a' <= c <= 'z'
    ||| 'A' <= c <= 'Z'
    ||| is_digit(c)
}

/// ASCII punctuation.
pub open spec fn is_mark(c: char) -> bool {
    ||| '!' <= c <= '/'
    ||| ':' <= c <= '@'
    ||| '[' <= c <= '`'
    ||| '{' <= c <= '~'
}

/// The marks of an unnumbered list item.
pub open spec fn is_bullet(c: char) -> bool {
    c == '*' || c == '-' || c == '+'
}

/// Index of the first `'\n'` at or after `i`, or `s.len()`.
pub open spec fn line_end(s: Seq<char>, i: int) -> int
    decreases s.len() - i,
{
    if 0 <= i < s.len() && s[i] != '\n' {
        line_end(s, i + 1)
    } else {
        i
    }
}

/// End of the run of `c` that starts at `i`.
pub open spec fn run_end(s: Seq<char>, i: int, c: char) -> int
    decreases s.len() - i,
{
    if at(s, i, c) {
        run_end(s, i + 1, c)
    } else {
        i
    }
}

/// End of the run of decimal digits that starts at `i`.
pub open spec fn digits_end(s: Seq<char>, i: int) -> int
    decreases s.len() - i,
{
    if 0 <= i < s.len() && is_digit(s[i]) {
        digits_end(s, i + 1)
    } else {
        i
    }
}

/// Scan of `words`: letters and digits, and single spaces followed by one.
pub open spec fn words_scan(s: Seq<char>, j: int) -> int
    decreases s.len() - j,
{
    if 0 <= j < s.len() && is_alnum(s[j]) {
        words_scan(s, j + 1)
    } else if 0 <= j && j + 1 < s.len() && s[j] == ' ' && is_alnum(s[j + 1]) {
        words_scan(s, j + 2)
    } else {
        j
    }
}

/// `words = word ~ (" " ~ word)*`, `word = ASCII_ALPHANUMERIC+`.
pub open spec fn r_words(s: Seq<char>, i: int) -> Option<int> {
    if 0 <= i < s.len() && is_alnum(s[i]) {
        Some(words_scan(s, i))
    } else {
        None
    }
}

/// `MARK`: one ASCII punctuation character.
pub open spec fn r_mark(s: Seq<char>, i: int) -> Option<int> {
    if 0 <= i < s.len() && is_mark(s[i]) {
        Some(i + 1)
    } else {
        None
    }
}

/// `headings1 = "#"+ ~ " " ~ (!"\n" ~ ANY)+ ~ "\n"`.
pub open spec fn r_headings1(s: Seq<char>, i: int) -> Option<int> {
    let h = run_end(s, i, '#');
    if h > i && at(s, h, ' ') {
        let e = line_end(s, h + 1);
        if e > h + 1 && at(s, e, '\n') {
            Some(e + 1)
        } else {
            None
        }
    } else {
        None
    }
}

/// `("==")+ ~ "\n" | ("--")+ ~ "\n"`.
pub open spec fn r_underline(s: Seq<char>, p: int) -> Option<int> {
    if at(s, p, '=') || at(s, p, '-') {
        let q = run_end(s, p, s[p]);
        if (q - p) % 2 == 0 && at(s, q, '\n') {
            Some(q + 1)
        } else {
            None
        }
    } else {
        None
    }
}

/// `headings2`: a line that does not start with white space, then an underline.
pub open spec fn r_headings2(s: Seq<char>, i: int) -> Option<int> {
    let e = line_end(s, i);
    if e > i && !crate::text::is_ws(s[i]) && at(s, e, '\n') {
        r_underline(s, e + 1)
    } else {
        None
    }
}

/// `headings = headings1 | headings2`.
pub open spec fn r_headings(s: Seq<char>, i: int) -> Option<int> {
    match r_headings1(s, i) {
        Some(e) => Some(e),
        None => r_headings2(s, i),
    }
}

/// The text of a list item: `(!"\n" ~ ANY)+ ~ "\n"`.
pub open spec fn r_item_text(s: Seq<char>, p: int) -> Option<int> {
    let e = line_end(s, p);
    if e > p && at(s, e, '\n') {
        Some(e + 1)
    } else {
        None
    }
}

/// `non_number_item = " "* ~ ("*" | "-" | "+") ~ " " ~ item_text`.
pub open spec fn r_non_number_item(s: Seq<char>, i: int) -> Option<int> {
    let sp = run_end(s, i, ' ');
    if 0 <= sp < s.len() && is_bullet(s[sp]) && at(s, sp + 1, ' ') {
        r_item_text(s, sp + 2)
    } else {
        None
    }
}

/// `number_item = " "* ~ ASCII_DIGIT+ ~ "." ~ " " ~ item_text`.
pub open spec fn r_number_item(s: Seq<char>, i: int) -> Option<int> {
    let sp = run_end(s, i, ' ');
    let d = digits_end(s, sp);
    if d > sp && at(s, d, '.') && at(s, d + 1, ' ') {
        r_item_text(s, d + 2)
    } else {
        None
    }
}

/// `item = number_item | non_number_item`.
pub open spec fn r_item(s: Seq<char>, i: int) -> Option<int> {
    match r_number_item(s, i) {
        Some(e) => Some(e),
        None => r_non_number_item(s, i),
    }
}

/// `normal = !item ~ (!"\n" ~ ANY)+`.
pub open spec fn r_normal(s: Seq<char>, i: int) -> Option<int> {
    if r_item(s, i) is None && line_end(s, i) > i {
        Some(line_end(s, i))
    } else {
        None
    }
}

/// `single_ref = " "* ~ ">" ~ (!"\n" ~ ANY)* ~ "\n"`.
pub open spec fn r_single_ref(s: Seq<char>, i: int) -> Option<int> {
    let sp = run_end(s, i, ' ');
    if at(s, sp, '>') {
        let e = line_end(s, sp + 1);
        if at(s, e, '\n') {
            Some(e + 1)
        } else {
            None
        }
    } else {
        None
    }
}

/// A line of a paragraph: `!single_ref ~ normal`.
pub open spec fn r_para_line(s: Seq<char>, i: int) -> Option<int> {
    if r_single_ref(s, i) is None {
        r_normal(s, i)
    } else {
        None
    }
}

/// Where a run of `c` ends, told by its characters.
pub proof fn lemma_run_end_at(s: Seq<char>, i: int, k: int, c: char)
    requires
        0 <= i <= k <= s.len(),
        forall|j: int| i <= j < k ==> s[j] == c,
        k == s.len() || s[k] != c,
    ensures
        run_end(s, i, c) == k,
    decreases k - i,
{
    if i < k {
        lemma_run_end_at(s, i + 1, k, c);
    }
}

/// Where a line ends, told by its characters.
pub proof fn lemma_line_end_at(s: Seq<char>, i: int, k: int)
    requires
        0 <= i <= k <= s.len(),
        forall|j: int| i <= j < k ==> s[j] != '\n',
        k == s.len() || s[k] == '\n',
    ensures
        line_end(s, i) == k,
    decreases k - i,
{
    if i < k {
        lemma_line_end_at(s, i + 1, k);
    }
}

pub proof fn lemma_line_end(s: Seq<char>, i: int)
    requires
        0 <= i <= s.len(),
    ensures
        i <= line_end(s, i) <= s.len(),
        line_end(s, i) < s.len() ==> s[line_end(s, i)] == '\n',
        forall|k: int| i <= k < line_end(s, i) ==> s[k] != '\n',
    decreases s.len() - i,
{
    if 0 <= i < s.len() && s[i] != '\n' {
        lemma_line_end(s, i + 1);
    }
}

pub proof fn lemma_run_end(s: Seq<char>, i: int, c: char)
    requires
        0 <= i <= s.len(),
    ensures
        i <= run_end(s, i, c) <= s.len(),
        forall|k: int| i <= k < run_end(s, i, c) ==> s[k] == c,
    decreases s.len() - i,
{
    if at(s, i, c) {
        lemma_run_end(s, i + 1, c);
    }
}

/// Where a run of digits ends, told by its characters.
/// Where `scan1` stops, told by the characters.
pub proof fn lemma_scan1_at(s: Seq<char>, i: int, k: int, c: char)
    requires
        0 <= i <= k <= s.len(),
        forall|j: int| i <= j < k ==> s[j] != '\n' && s[j] != c,
        k == s.len() || s[k] == '\n' || s[k] == c,
    ensures
        scan1(s, i, c) == k,
    decreases k - i,
{
    if i < k {
        lemma_scan1_at(s, i + 1, k, c);
    }
}

/// Where `scan2` stops, told by the characters.
pub proof fn lemma_scan2_at(s: Seq<char>, i: int, k: int, c: char)
    requires
        0 <= i <= k <= s.len(),
        forall|j: int| i <= j < k ==> s[j] != '\n' && !pair_at(s, j, c),
        k == s.len() || s[k] == '\n' || pair_at(s, k, c),
    ensures
        scan2(s, i, c) == k,
    decreases k - i,
{
    if i < k {
        lemma_scan2_at(s, i + 1, k, c);
    }
}

pub proof fn lemma_digits_end_at(s: Seq<char>, i: int, k: int)
    requires
        0 <= i <= k <= s.len(),
        forall|j: int| i <= j < k ==> is_digit(s[j]),
        k == s.len() || !is_digit(s[k]),
    ensures
        digits_end(s, i) == k,
    decreases k - i,
{
    if i < k {
        lemma_digits_end_at(s, i + 1, k);
    }
}

pub proof fn lemma_digits_end(s: Seq<char>, i: int)
    requires
        0 <= i <= s.len(),
    ensures
        i <= digits_end(s, i) <= s.len(),
    decreases s.len() - i,
{
    if 0 <= i < s.len() && is_digit(s[i]) {
        lemma_digits_end(s, i + 1);
    }
}

pub proof fn lemma_single_ref(s: Seq<char>, i: int)
    requires
        0 <= i <= s.len(),
    ensures
        r_single_ref(s, i) matches Some(e) ==> i + 2 <= e <= s.len(),
{
    lemma_run_end(s, i, ' ');
    let sp = run_end(s, i, ' ');
    if at(s, sp, '>') {
        lemma_line_end(s, sp + 1);
    }
}

pub proof fn lemma_para_line(s: Seq<char>, i: int)
    requires
        0 <= i <= s.len(),
    ensures
        r_para_line(s, i) matches Some(e) ==> i < e <= s.len(),
{
    lemma_line_end(s, i);
}

/// `(("\n" ~ para_line)*`: where the further lines of a paragraph end.
pub open spec fn para_rest(s: Seq<char>, p: int) -> int
    decreases s.len() - p,
{
    if 0 <= p && at(s, p, '\n') && r_para_line(s, p + 1) is Some {
        proof {
            lemma_para_line(s, p + 1);
        }
        para_rest(s, r_para_line(s, p + 1).unwrap())
    } else {
        p
    }
}

/// `paragraph = para_line ~ ("\n" ~ para_line)* ~ ("\n" ~ ("\n" | EOI) | EOI)`.
pub open spec fn r_paragraph(s: Seq<char>, i: int) -> Option<int> {
    match r_para_line(s, i) {
        Some(e0) => {
            let p = para_rest(s, e0);
            if p == s.len() {
                Some(p)
            } else if at(s, p, '\n') {
                if p + 1 == s.len() {
                    Some(p + 1)
                } else if at(s, p + 1, '\n') {
                    Some(p + 2)
                } else {
                    None
                }
            } else {
                None
            }
        },
        None => None,
    }
}

/// `linebreak = "<br>" | "  " ~ "\n"`.
pub open spec fn r_linebreak(s: Seq<char>, i: int) -> Option<int> {
    if at(s, i, '<') && at(s, i + 1, 'b') && at(s, i + 2, 'r') && at(s, i + 3, '>') {
        Some(i + 4)
    } else if at(s, i, ' ') && at(s, i + 1, ' ') && at(s, i + 2, '\n') {
        Some(i + 3)
    } else {
        None
    }
}

/// First index at or after `q` where a line ends or `c c` starts.
pub open spec fn scan2(s: Seq<char>, q: int, c: char) -> int
    decreases s.len() - q,
{
    if 0 <= q < s.len() && s[q] != '\n' && !pair_at(s, q, c) {
        scan2(s, q + 1, c)
    } else {
        q
    }
}

/// First index at or after `q` where a line ends or `c` occurs.
pub open spec fn scan1(s: Seq<char>, q: int, c: char) -> int
    decreases s.len() - q,
{
    if 0 <= q < s.len() && s[q] != '\n' && s[q] != c {
        scan1(s, q + 1, c)
    } else {
        q
    }
}

/// `c c ~ (!(c c) ~ !"\n" ~ ANY)+ ~ c c`.
pub open spec fn r_bold_with(s: Seq<char>, i: int, c: char) -> Option<int> {
    if pair_at(s, i, c) {
        let e = scan2(s, i + 2, c);
        if e > i + 2 && pair_at(s, e, c) {
            Some(e + 2)
        } else {
            None
        }
    } else {
        None
    }
}

/// `bold = "**" ... "**" | "__" ... "__"`.
pub open spec fn r_bold(s: Seq<char>, i: int) -> Option<int> {
    match r_bold_with(s, i, '*') {
        Some(e) => Some(e),
        None => r_bold_with(s, i, '_'),
    }
}

/// `c ~ (!c ~ !"\n" ~ ANY)+ ~ c`.
pub open spec fn r_italic_with(s: Seq<char>, i: int, c: char) -> Option<int> {
    if at(s, i, c) {
        let e = scan1(s, i + 1, c);
        if e > i + 1 && at(s, e, c) {
            Some(e + 1)
        } else {
            None
        }
    } else {
        None
    }
}

/// `italic = "*" ... "*" | "_" ... "_"`.
pub open spec fn r_italic(s: Seq<char>, i: int) -> Option<int> {
    match r_italic_with(s, i, '*') {
        Some(e) => Some(e),
        None => r_italic_with(s, i, '_'),
    }
}

/// An executable result seen as a spec result.
pub open spec fn opt(r: Option<usize>) -> Option<int> {
    match r {
        Some(e) => Some(e as int),
        None => None,
    }
}

fn m_at(s: &Vec<char>, i: usize, c: char) -> (r: bool)
    ensures
        r == at(s@, i as int, c),
{
    i < s.len() && s[i] == c
}

fn m_pair_at(s: &Vec<char>, i: usize, c: char) -> (r: bool)
    ensures
        r == pair_at(s@, i as int, c),
{
    i < s.len() && s[i] == c && i + 1 < s.len() && s[i + 1] == c
}

fn m_is_digit(c: char) -> (r: bool)
    ensures
        r == is_digit(c),
{
    '0' <= c && c <= '9'
}

fn m_is_alnum(c: char) -> (r: bool)
    ensures
        r == is_alnum(c),
{
    ('a' <= c && c <= 'z') || ('A' <= c && c <= 'Z') || m_is_digit(c)
}

fn m_is_mark(c: char) -> (r: bool)
    ensures
        r == is_mark(c),
{
    ('!' <= c && c <= '/') || (':' <= c && c <= '@') || ('[' <= c && c <= '`') || ('{' <= c && c
        <= '~')
}

pub fn m_line_end(s: &Vec<char>, i: usize) -> (r: usize)
    requires
        i <= s.len(),
    ensures
        r == line_end(s@, i as int),
        i <= r <= s.len(),
{
    let mut j = i;
    while j < s.len() && s[j] != '\n'
        invariant
            i <= j <= s.len(),
            line_end(s@, i as int) == line_end(s@, j as int),
        decreases s.len() - j,
    {
        j = j + 1;
    }
    j
}

pub fn m_run_end(s: &Vec<char>, i: usize, c: char) -> (r: usize)
    requires
        i <= s.len(),
    ensures
        r == run_end(s@, i as int, c),
        i <= r <= s.len(),
{
    let mut j = i;
    while j < s.len() && s[j] == c
        invariant
            i <= j <= s.len(),
            run_end(s@, i as int, c) == run_end(s@, j as int, c),
        decreases s.len() - j,
    {
        j = j + 1;
    }
    j
}

pub fn m_digits_end(s: &Vec<char>, i: usize) -> (r: usize)
    requires
        i <= s.len(),
    ensures
        r == digits_end(s@, i as int),
        i <= r <= s.len(),
{
    let mut j = i;
    while j < s.len() && m_is_digit(s[j])
        invariant
            i <= j <= s.len(),
            digits_end(s@, i as int) == digits_end(s@, j as int),
        decreases s.len() - j,
    {
        j = j + 1;
    }
    j
}

fn m_words_scan(s: &Vec<char>, i: usize) -> (r: usize)
    requires
        i <= s.len(),
    ensures
        r == words_scan(s@, i as int),
        i <= r <= s.len(),
{
    let mut j = i;
    loop
        invariant
            i <= j <= s.len(),
            words_scan(s@, i as int) == words_scan(s@, j as int),
        decreases s.len() - j,
    {
        if j < s.len() && m_is_alnum(s[j]) {
            j = j + 1;
        } else if j < s.len() && j + 1 < s.len() && s[j] == ' ' && m_is_alnum(s[j + 1]) {
            j = j + 2;
        } else {
            return j;
        }
    }
}

fn m_scan2(s: &Vec<char>, i: usize, c: char) -> (r: usize)
    requires
        i <= s.len(),
    ensures
        r == scan2(s@, i as int, c),
        i <= r <= s.len(),
{
    let mut j = i;
    while j < s.len() && s[j] != '\n' && !m_pair_at(s, j, c)
        invariant
            i <= j <= s.len(),
            scan2(s@, i as int, c) == scan2(s@, j as int, c),
        decreases s.len() - j,
    {
        j = j + 1;
    }
    j
}

fn m_scan1(s: &Vec<char>, i: usize, c: char) -> (r: usize)
    requires
        i <= s.len(),
    ensures
        r == scan1(s@, i as int, c),
        i <= r <= s.len(),
{
    let mut j = i;
    while j < s.len() && s[j] != '\n' && s[j] != c
        invariant
            i <= j <= s.len(),
            scan1(s@, i as int, c) == scan1(s@, j as int, c),
        decreases s.len() - j,
    {
        j = j + 1;
    }
    j
}

pub fn m_words(s: &Vec<char>, i: usize) -> (r: Option<usize>)
    requires
        i <= s.len(),
    ensures
        opt(r) == r_words(s@, i as int),
        r matches Some(e) ==> i <= e <= s.len(),
{
    if i < s.len() && m_is_alnum(s[i]) {
        Some(m_words_scan(s, i))
    } else {
        None
    }
}

pub fn m_mark(s: &Vec<char>, i: usize) -> (r: Option<usize>)
    requires
        i <= s.len(),
    ensures
        opt(r) == r_mark(s@, i as int),
        r matches Some(e) ==> i <= e <= s.len(),
{
    if i < s.len() && m_is_mark(s[i]) {
        Some(i + 1)
    } else {
        None
    }
}

pub fn m_headings1(s: &Vec<char>, i: usize) -> (r: Option<usize>)
    requires
        i <= s.len(),
    ensures
        opt(r) == r_headings1(s@, i as int),
        r matches Some(e) ==> i < e <= s.len(),
{
    let h = m_run_end(s, i, '#');
    if h > i && m_at(s, h, ' ') {
        let e = m_line_end(s, h + 1);
        if e > h + 1 && m_at(s, e, '\n') {
            Some(e + 1)
        } else {
            None
        }
    } else {
        None
    }
}

fn m_underline(s: &Vec<char>, p: usize) -> (r: Option<usize>)
    requires
        p <= s.len(),
    ensures
        opt(r) == r_underline(s@, p as int),
        r matches Some(e) ==> p < e <= s.len(),
{
    if m_at(s, p, '=') || m_at(s, p, '-') {
        let q = m_run_end(s, p, s[p]);
        if (q - p) % 2 == 0 && m_at(s, q, '\n') {
            Some(q + 1)
        } else {
            None
        }
    } else {
        None
    }
}

pub fn m_headings2(s: &Vec<char>, i: usize) -> (r: Option<usize>)
    requires
        i <= s.len(),
    ensures
        opt(r) == r_headings2(s@, i as int),
        r matches Some(e) ==> i < e <= s.len(),
{
    let e = m_line_end(s, i);
    if e > i && !crate::text::is_white_space(s[i]) && m_at(s, e, '\n') {
        m_underline(s, e + 1)
    } else {
        None
    }
}

pub fn m_headings(s: &Vec<char>, i: usize) -> (r: Option<usize>)
    requires
        i <= s.len(),
    ensures
        opt(r) == r_headings(s@, i as int),
        r matches Some(e) ==> i < e <= s.len(),
{
    match m_headings1(s, i) {
        Some(e) => Some(e),
        None => m_headings2(s, i),
    }
}

fn m_item_text(s: &Vec<char>, p: usize) -> (r: Option<usize>)
    requires
        p <= s.len(),
    ensures
        opt(r) == r_item_text(s@, p as int),
        r matches Some(e) ==> p < e <= s.len(),
{
    let e = m_line_end(s, p);
    if e > p && m_at(s, e, '\n') {
        Some(e + 1)
    } else {
        None
    }
}

pub fn m_non_number_item(s: &Vec<char>, i: usize) -> (r: Option<usize>)
    requires
        i <= s.len(),
    ensures
        opt(r) == r_non_number_item(s@, i as int),
        r matches Some(e) ==> i < e <= s.len(),
{
    let sp = m_run_end(s, i, ' ');
    if sp < s.len() && (s[sp] == '*' || s[sp] == '-' || s[sp] == '+') && m_at(s, sp + 1, ' ') {
        m_item_text(s, sp + 2)
    } else {
        None
    }
}

pub fn m_number_item(s: &Vec<char>, i: usize) -> (r: Option<usize>)
    requires
        i <= s.len(),
    ensures
        opt(r) == r_number_item(s@, i as int),
        r matches Some(e) ==> i < e <= s.len(),
{
    let sp = m_run_end(s, i, ' ');
    let d = m_digits_end(s, sp);
    if d > sp && m_at(s, d, '.') && m_at(s, d + 1, ' ') {
        m_item_text(s, d + 2)
    } else {
        None
    }
}

pub fn m_item(s: &Vec<char>, i: usize) -> (r: Option<usize>)
    requires
        i <= s.len(),
    ensures
        opt(r) == r_item(s@, i as int),
        r matches Some(e) ==> i < e <= s.len(),
{
    match m_number_item(s, i) {
        Some(e) => Some(e),
        None => m_non_number_item(s, i),
    }
}

pub fn m_normal(s: &Vec<char>, i: usize) -> (r: Option<usize>)
    requires
        i <= s.len(),
    ensures
        opt(r) == r_normal(s@, i as int),
        r matches Some(e) ==> i < e <= s.len(),
{
    if m_item(s, i).is_none() {
        let e = m_line_end(s, i);
        if e > i {
            return Some(e);
        }
    }
    None
}

pub fn m_single_ref(s: &Vec<char>, i: usize) -> (r: Option<usize>)
    requires
        i <= s.len(),
    ensures
        opt(r) == r_single_ref(s@, i as int),
        r matches Some(e) ==> i < e <= s.len(),
{
    let sp = m_run_end(s, i, ' ');
    if m_at(s, sp, '>') {
        let e = m_line_end(s, sp + 1);
        if m_at(s, e, '\n') {
            Some(e + 1)
        } else {
            None
        }
    } else {
        None
    }
}

fn m_para_line(s: &Vec<char>, i: usize) -> (r: Option<usize>)
    requires
        i <= s.len(),
    ensures
        opt(r) == r_para_line(s@, i as int),
        r matches Some(e) ==> i < e <= s.len(),
{
    if m_single_ref(s, i).is_none() {
        m_normal(s, i)
    } else {
        None
    }
}

pub fn m_paragraph(s: &Vec<char>, i: usize) -> (r: Option<usize>)
    requires
        i <= s.len(),
    ensures
        opt(r) == r_paragraph(s@, i as int),
        r matches Some(e) ==> i + 1 <= e <= s.len(),
{
    let e0 = match m_para_line(s, i) {
        Some(e0) => e0,
        None => return None,
    };
    let mut p = e0;
    loop
        invariant
            i < e0 <= p <= s.len(),
            para_rest(s@, e0 as int) == para_rest(s@, p as int),
        ensures
            i < e0 <= p <= s.len(),
            para_rest(s@, e0 as int) == p,
        decreases s.len() - p,
    {
        if m_at(s, p, '\n') {
            match m_para_line(s, p + 1) {
                Some(e) => {
                    p = e;
                },
                None => break ,
            }
        } else {
            break ;
        }
    }
    if p == s.len() {
        Some(p)
    } else if m_at(s, p, '\n') {
        if p + 1 == s.len() {
            Some(p + 1)
        } else if m_at(s, p + 1, '\n') {
            Some(p + 2)
        } else {
            None
        }
    } else {
        None
    }
}

pub fn m_linebreak(s: &Vec<char>, i: usize) -> (r: Option<usize>)
    requires
        i <= s.len(),
    ensures
        opt(r) == r_linebreak(s@, i as int),
        r matches Some(e) ==> i + 3 <= e <= s.len(),
{
    if m_at(s, i, '<') && m_at(s, i + 1, 'b') && m_at(s, i + 2, 'r') && m_at(s, i + 3, '>') {
        Some(i + 4)
    } else if m_at(s, i, ' ') && m_at(s, i + 1, ' ') && m_at(s, i + 2, '\n') {
        Some(i + 3)
    } else {
        None
    }
}

fn m_bold_with(s: &Vec<char>, i: usize, c: char) -> (r: Option<usize>)
    requires
        i <= s.len(),
    ensures
        opt(r) == r_bold_with(s@, i as int, c),
        r matches Some(e) ==> i + 5 <= e <= s.len(),
{
    if m_pair_at(s, i, c) {
        let e = m_scan2(s, i + 2, c);
        if e > i + 2 && m_pair_at(s, e, c) {
            Some(e + 2)
        } else {
            None
        }
    } else {
        None
    }
}

pub fn m_bold(s: &Vec<char>, i: usize) -> (r: Option<usize>)
    requires
        i <= s.len(),
    ensures
        opt(r) == r_bold(s@, i as int),
        r matches Some(e) ==> i + 5 <= e <= s.len(),
{
    match m_bold_with(s, i, '*') {
        Some(e) => Some(e),
        None => m_bold_with(s, i, '_'),
    }
}

fn m_italic_with(s: &Vec<char>, i: usize, c: char) -> (r: Option<usize>)
    requires
        i <= s.len(),
    ensures
        opt(r) == r_italic_with(s@, i as int, c),
        r matches Some(e) ==> i + 3 <= e <= s.len(),
{
    if m_at(s, i, c) {
        let e = m_scan1(s, i + 1, c);
        if e > i + 1 && m_at(s, e, c) {
            Some(e + 1)
        } else {
            None
        }
    } else {
        None
    }
}

pub fn m_italic(s: &Vec<char>, i: usize) -> (r: Option<usize>)
    requires
        i <= s.len(),
    ensures
        opt(r) == r_italic(s@, i as int),
        r matches Some(e) ==> i + 3 <= e <= s.len(),
{
    match m_italic_with(s, i, '*') {
        Some(e) => Some(e),
        None => m_italic_with(s, i, '_'),
    }
}

/// `r` is the prefix of `input` that a rule with result `spec_r` matched.
pub open spec fn prefix_result(input: Seq<char>, spec_r: Option<int>, r: Option<&str>) -> bool {
    match spec_r {
        Some(e) => r matches Some(m) && m@ == input.subrange(0, e),
        None => r is None,
    }
}

fn matched_prefix<'a>(input: &'a str, r: Option<usize>) -> (res: Option<&'a str>)
    requires
        r matches Some(e) ==> e <= input@.len(),
    ensures
        prefix_result(input@, opt(r), res),
{
    match r {
        Some(e) => Some(input.substring_char(0, e)),
        None => None,
    }
}

/// The prefix of `input` that `words` matches.
pub fn words(input: &str) -> (r: Option<&str>)
    ensures
        prefix_result(input@, r_words(input@, 0), r),
{
    let v = crate::text::chars_of(input);
    matched_prefix(input, m_words(&v, 0))
}

/// The prefix of `input` that `mark` matches.
pub fn mark(input: &str) -> (r: Option<&str>)
    ensures
        prefix_result(input@, r_mark(input@, 0), r),
{
    let v = crate::text::chars_of(input);
    matched_prefix(input, m_mark(&v, 0))
}

/// The prefix of `input` that `headings1` matches.
pub fn headings1(input: &str) -> (r: Option<&str>)
    ensures
        prefix_result(input@, r_headings1(input@, 0), r),
{
    let v = crate::text::chars_of(input);
    matched_prefix(input, m_headings1(&v, 0))
}

/// The prefix of `input` that `headings2` matches.
pub fn headings2(input: &str) -> (r: Option<&str>)
    ensures
        prefix_result(input@, r_headings2(input@, 0), r),
{
    let v = crate::text::chars_of(input);
    matched_prefix(input, m_headings2(&v, 0))
}

/// The prefix of `input` that `headings` matches.
pub fn headings(input: &str) -> (r: Option<&str>)
    ensures
        prefix_result(input@, r_headings(input@, 0), r),
{
    let v = crate::text::chars_of(input);
    matched_prefix(input, m_headings(&v, 0))
}

/// The prefix of `input` that `normal` matches.
pub fn normal(input: &str) -> (r: Option<&str>)
    ensures
        prefix_result(input@, r_normal(input@, 0), r),
{
    let v = crate::text::chars_of(input);
    matched_prefix(input, m_normal(&v, 0))
}

/// The prefix of `input` that `non_number_item` matches.
pub fn non_number_item(input: &str) -> (r: Option<&str>)
    ensures
        prefix_result(input@, r_non_number_item(input@, 0), r),
{
    let v = crate::text::chars_of(input);
    matched_prefix(input, m_non_number_item(&v, 0))
}

/// The prefix of `input` that `number_item` matches.
pub fn number_item(input: &str) -> (r: Option<&str>)
    ensures
        prefix_result(input@, r_number_item(input@, 0), r),
{
    let v = crate::text::chars_of(input);
    matched_prefix(input, m_number_item(&v, 0))
}

/// The prefix of `input` that `item` matches.
pub fn item(input: &str) -> (r: Option<&str>)
    ensures
        prefix_result(input@, r_item(input@, 0), r),
{
    let v = crate::text::chars_of(input);
    matched_prefix(input, m_item(&v, 0))
}

/// The prefix of `input` that `paragraph` matches.
pub fn paragraph(input: &str) -> (r: Option<&str>)
    ensures
        prefix_result(input@, r_paragraph(input@, 0), r),
{
    let v = crate::text::chars_of(input);
    matched_prefix(input, m_paragraph(&v, 0))
}

/// The prefix of `input` that `linebreak` matches.
pub fn linebreak(input: &str) -> (r: Option<&str>)
    ensures
        prefix_result(input@, r_linebreak(input@, 0), r),
{
    let v = crate::text::chars_of(input);
    matched_prefix(input, m_linebreak(&v, 0))
}

/// The prefix of `input` that `bold` matches.
pub fn bold(input: &str) -> (r: Option<&str>)
    ensures
        prefix_result(input@, r_bold(input@, 0), r),
{
    let v = crate::text::chars_of(input);
    matched_prefix(input, m_bold(&v, 0))
}

/// The prefix of `input` that `italic` matches.
pub fn italic(input: &str) -> (r: Option<&str>)
    ensures
        prefix_result(input@, r_italic(input@, 0), r),
{
    let v = crate::text::chars_of(input);
    matched_prefix(input, m_italic(&v, 0))
}

/// The prefix of `input` that `single_ref` matches.
pub fn single_ref(input: &str) -> (r: Option<&str>)
    ensures
        prefix_result(input@, r_single_ref(input@, 0), r),
{
    let v = crate::text::chars_of(input);
    matched_prefix(input, m_single_ref(&v, 0))
}

/// The rules of the grammar.
#[allow(non_camel_case_types)]
#[derive(Debug, Clone, Copy, PartialEq, Eq, Structural)]
pub enum Rule {
    word,
    words,
    MARK,
    headings1,
    headings2,
    headings,
    normal,
    non_number_item,
    non_number_item_mark,
    number_item,
    number_item_mark,
    item,
    paragraph,
    linebreak,
    bold,
    italic,
    single_ref,
    single_ref_mark,
}

/// The name under which a rule is reported: its own for the word and
/// heading rules, `...` for the others.
pub open spec fn rule_name(r: Rule) -> Seq<char> {
    match r {
        Rule::word => "word"@,
        Rule::words => "words"@,
        Rule::headings1 => "headings1"@,
        Rule::headings2 => "headings2"@,
        Rule::headings => "headings"@,
        _ => "..."@,
    }
}

impl Rule {
    /// The text that names this rule in messages.
    pub fn name(&self) -> (r: &'static str)
        ensures
            r@ == rule_name(*self),
    {
        match self {
            Rule::word => "word",
            Rule::words => "words",
            Rule::headings1 => "headings1",
            Rule::headings2 => "headings2",
            Rule::headings => "headings",
            _ => "...",
        }
    }
}

} // verus!
