//! Character-level helpers shared by the parsers: white space, trimming,
//! conversions between `str`, `Vec<char>` and `String`.
use vstd::prelude::*;
use vstd::string::*;

verus! {

/// The Unicode `White_Space` property, the one that `str::trim` removes.
pub open spec fn is_ws(c: char) -> bool {
    let u = c as u32;
    ||| 0x9 <= u <= 0xd
    ||| u == 0x20
    ||| u == 0x85
    ||| u == 0xa0
    ||| u == 0x1680
    ||| 0x2000 <= u <= 0x200a
    ||| u == 0x2028
    ||| u == 0x2029
    ||| u == 0x202f
    ||| u == 0x205f
    ||| u == 0x3000
}

/// First index in `[i, j)` whose character is not white space, or `j`.
pub open spec fn skip_ws(s: Seq<char>, i: int, j: int) -> int
    decreases j - i,
{
    if i < j && is_ws(s[i]) {
        skip_ws(s, i + 1, j)
    } else {
        i
    }
}

/// One past the last index in `[i, j)` whose character is not white space, or `i`.
pub open spec fn back_ws(s: Seq<char>, i: int, j: int) -> int
    decreases j - i,
{
    if i < j && is_ws(s[j - 1]) {
        back_ws(s, i, j - 1)
    } else {
        j
    }
}

/// `s` without leading and trailing white space.
pub open spec fn trim(s: Seq<char>) -> Seq<char> {
    let a = skip_ws(s, 0, s.len() as int);
    s.subrange(a, back_ws(s, a, s.len() as int))
}

/// First index in `[i, j)` whose character is not `c`, or `j`.
pub open spec fn skip_char(s: Seq<char>, i: int, j: int, c: char) -> int
    decreases j - i,
{
    if i < j && s[i] == c {
        skip_char(s, i + 1, j, c)
    } else {
        i
    }
}

/// One past the last index in `[i, j)` whose character is not `c`, or `i`.
pub open spec fn back_char(s: Seq<char>, i: int, j: int, c: char) -> int
    decreases j - i,
{
    if i < j && s[j - 1] == c {
        back_char(s, i, j - 1, c)
    } else {
        j
    }
}

/// `s` without leading and trailing occurrences of `c`.
pub open spec fn strip_char(s: Seq<char>, c: char) -> Seq<char> {
    let a = skip_char(s, 0, s.len() as int, c);
    s.subrange(a, back_char(s, a, s.len() as int, c))
}

pub proof fn lemma_skip_ws_bounds(s: Seq<char>, i: int, j: int)
    requires
        i <= j,
    ensures
        i <= skip_ws(s, i, j) <= j,
        forall|k: int| i <= k < skip_ws(s, i, j) ==> is_ws(#[trigger] s[k]),
        skip_ws(s, i, j) < j ==> !is_ws(s[skip_ws(s, i, j)]),
    decreases j - i,
{
    if i < j && is_ws(s[i]) {
        lemma_skip_ws_bounds(s, i + 1, j);
    }
}

pub proof fn lemma_back_ws_bounds(s: Seq<char>, i: int, j: int)
    requires
        i <= j,
    ensures
        i <= back_ws(s, i, j) <= j,
        forall|k: int| back_ws(s, i, j) <= k < j ==> is_ws(#[trigger] s[k]),
        back_ws(s, i, j) > i ==> !is_ws(s[back_ws(s, i, j) - 1]),
    decreases j - i,
{
    if i < j && is_ws(s[j - 1]) {
        lemma_back_ws_bounds(s, i, j - 1);
    }
}

/// Trimming a segment of a longer sequence can be done with indices into the longer one.
pub proof fn lemma_skip_ws_shift(s: Seq<char>, a: int, b: int, i: int)
    requires
        0 <= a <= i <= b <= s.len(),
    ensures
        skip_ws(s.subrange(a, b), i - a, b - a) == skip_ws(s, i, b) - a,
    decreases b - i,
{
    if i < b && is_ws(s[i]) {
        lemma_skip_ws_shift(s, a, b, i + 1);
    }
}

pub proof fn lemma_back_ws_shift(s: Seq<char>, a: int, b: int, i: int, j: int)
    requires
        0 <= a <= i <= j <= b <= s.len(),
    ensures
        back_ws(s.subrange(a, b), i - a, j - a) == back_ws(s, i, j) - a,
    decreases j - i,
{
    if i < j && is_ws(s[j - 1]) {
        lemma_back_ws_shift(s, a, b, i, j - 1);
    }
}

/// Executable counterpart of `is_ws`.
pub fn is_white_space(c: char) -> (r: bool)
    ensures
        r == is_ws(c),
{
    let u = c as u32;
    (0x9 <= u && u <= 0xd) || u == 0x20 || u == 0x85 || u == 0xa0 || u == 0x1680 || (0x2000 <= u
        && u <= 0x200a) || u == 0x2028 || u == 0x2029 || u == 0x202f || u == 0x205f || u == 0x3000
}

/// The characters of `s`.
pub fn chars_of(s: &str) -> (v: Vec<char>)
    ensures
        v@ == s@,
{
    broadcast use vstd::string::group_string_axioms;

    let mut v: Vec<char> = Vec::new();
    for c in it: s.chars()
        invariant
            it.seq() == s@,
            v@ == it.seq().take(it.index()),
    {
        v.push(c);
    }
    v
}

/// `String::push`: the string afterwards is the one before with `c` appended.
#[verifier::external_body]
pub fn push_char(s: &mut String, c: char)
    ensures
        final(s)@ == old(s)@.push(c),
{
    s.push(c);
}

/// A new string holding `v[a..b]`.
pub fn string_of(v: &Vec<char>, a: usize, b: usize) -> (r: String)
    requires
        a <= b <= v.len(),
    ensures
        r@ == v@.subrange(a as int, b as int),
{
    let mut r = String::new();
    let mut i = a;
    while i < b
        invariant
            a <= i <= b <= v.len(),
            r@ == v@.subrange(a as int, i as int),
        decreases b - i,
    {
        push_char(&mut r, v[i]);
        i = i + 1;
    }
    r
}

/// The part of `s` after its first `k` characters.
pub fn suffix(s: &str, k: usize) -> (r: &str)
    requires
        k <= s@.len(),
    ensures
        r@ == s@.skip(k as int),
{
    let n = s.unicode_len();
    s.substring_char(k, n)
}

/// Bounds of `v[a..b]` with leading and trailing white space removed.
pub fn trim_bounds(v: &Vec<char>, a: usize, b: usize) -> (r: (usize, usize))
    requires
        a <= b <= v.len(),
    ensures
        a <= r.0 <= r.1 <= b,
        v@.subrange(r.0 as int, r.1 as int) == trim(v@.subrange(a as int, b as int)),
{
    let ghost s = v@;
    let mut i = a;
    while i < b && is_white_space(v[i])
        invariant
            a <= i <= b <= v.len(),
            s == v@,
            skip_ws(s, a as int, b as int) == skip_ws(s, i as int, b as int),
        decreases b - i,
    {
        i = i + 1;
    }
    let mut j = b;
    while j > i && is_white_space(v[j - 1])
        invariant
            a <= i <= j <= b <= v.len(),
            s == v@,
            back_ws(s, i as int, b as int) == back_ws(s, i as int, j as int),
        decreases j - i,
    {
        j = j - 1;
    }
    proof {
        let t = s.subrange(a as int, b as int);
        lemma_skip_ws_shift(s, a as int, b as int, a as int);
        lemma_back_ws_shift(s, a as int, b as int, i as int, b as int);
        assert(t.subrange(i - a, j - a) =~= s.subrange(i as int, j as int));
    }
    (i, j)
}

/// A new string holding `v[a..b]` without leading and trailing white space.
pub fn trimmed_string(v: &Vec<char>, a: usize, b: usize) -> (r: String)
    requires
        a <= b <= v.len(),
    ensures
        r@ == trim(v@.subrange(a as int, b as int)),
{
    let (i, j) = trim_bounds(v, a, b);
    string_of(v, i, j)
}

/// Bounds of `v` with leading and trailing occurrences of `c` removed.
pub fn strip_bounds(v: &Vec<char>, c: char) -> (r: (usize, usize))
    ensures
        r.0 <= r.1 <= v.len(),
        v@.subrange(r.0 as int, r.1 as int) == strip_char(v@, c),
{
    let mut i: usize = 0;
    while i < v.len() && v[i] == c
        invariant
            i <= v.len(),
            skip_char(v@, 0, v.len() as int, c) == skip_char(v@, i as int, v.len() as int, c),
        decreases v.len() - i,
    {
        i = i + 1;
    }
    let mut j = v.len();
    while j > i && v[j - 1] == c
        invariant
            i <= j <= v.len(),
            back_char(v@, i as int, v.len() as int, c) == back_char(v@, i as int, j as int, c),
        decreases j - i,
    {
        j = j - 1;
    }
    (i, j)
}

/// A new string holding `s` followed by a line end.
pub fn line_of(s: &str) -> (r: String)
    ensures
        r@ == s@.push('\n'),
{
    let mut r = String::new();
    r.append(s);
    push_char(&mut r, '\n');
    r
}

/// Whether `a` and `b` hold the same characters.
pub fn same_text(a: &str, b: &str) -> (r: bool)
    ensures
        r == (a@ == b@),
{
    let x = chars_of(a);
    let y = chars_of(b);
    if x.len() != y.len() {
        return false;
    }
    let mut i: usize = 0;
    while i < x.len()
        invariant
            i <= x.len() == y.len(),
            x@ == a@,
            y@ == b@,
            forall|k: int| 0 <= k < i ==> x@[k] == y@[k],
        decreases x.len() - i,
    {
        if x[i] != y[i] {
            assert(x@[i as int] != y@[i as int]);
            return false;
        }
        i = i + 1;
    }
    assert(x@ =~= y@);
    true
}

/// Index of the first `c` at or after `i`, or `s.len()`.
pub open spec fn find_from(s: Seq<char>, i: int, c: char) -> int
    decreases s.len() - i,
{
    if 0 <= i < s.len() && s[i] != c {
        find_from(s, i + 1, c)
    } else {
        i
    }
}

pub proof fn lemma_find_from(s: Seq<char>, i: int, c: char)
    ensures
        i <= find_from(s, i, c),
        0 <= i <= s.len() ==> find_from(s, i, c) <= s.len(),
    decreases s.len() - i,
{
    if 0 <= i < s.len() && s[i] != c {
        lemma_find_from(s, i + 1, c);
    }
}

/// The pieces of `s[start..]` between the occurrences of `c`.
pub open spec fn split_from(s: Seq<char>, start: int, c: char) -> Seq<Seq<char>>
    decreases s.len() - start,
{
    let k = find_from(s, start, c);
    if 0 <= start && k < s.len() {
        proof {
            lemma_find_from(s, start, c);
        }
        seq![s.subrange(start, k)] + split_from(s, k + 1, c)
    } else {
        seq![s.subrange(start, s.len() as int)]
    }
}

/// The pieces of `s` between the occurrences of `c`: one more than there
/// are occurrences, empty ones included.
pub open spec fn split_char(s: Seq<char>, c: char) -> Seq<Seq<char>> {
    split_from(s, 0, c)
}

/// What a sequence of strings holds.
pub open spec fn strings_view(v: Seq<String>) -> Seq<Seq<char>> {
    v.map_values(|x: String| x@)
}

/// The pieces of `s` between the occurrences of `c`.
pub fn split(s: &str, c: char) -> (r: Vec<String>)
    ensures
        strings_view(r@) == split_char(s@, c),
{
    let v = chars_of(s);
    let mut result: Vec<String> = Vec::new();
    let mut start: usize = 0;
    let mut i: usize = 0;
    while i < v.len()
        invariant
            start <= i <= v.len(),
            v@ == s@,
            split_char(v@, c) == strings_view(result@) + split_from(v@, start as int, c),
            find_from(v@, start as int, c) == find_from(v@, i as int, c),
        decreases v.len() - i,
    {
        if v[i] == c {
            let ghost before = strings_view(result@);
            let piece = string_of(&v, start, i);
            result.push(piece);
            proof {
                assert(strings_view(result@) =~= before.push(v@.subrange(start as int, i as int)));
                assert(before + (seq![v@.subrange(start as int, i as int)] + split_from(
                    v@,
                    i + 1,
                    c,
                )) =~= before.push(v@.subrange(start as int, i as int)) + split_from(
                    v@,
                    i + 1,
                    c,
                ));
            }
            start = i + 1;
        }
        i = i + 1;
    }
    let ghost before = strings_view(result@);
    result.push(string_of(&v, start, v.len()));
    assert(strings_view(result@) =~= before + seq![v@.subrange(start as int, v.len() as int)]);
    result
}

/// What `trim` keeps: a part of `s` that, when not empty, starts and ends
/// with a character that is not white space.
pub proof fn lemma_trim_shape(s: Seq<char>)
    ensures
        trim(s) == s.subrange(
            skip_ws(s, 0, s.len() as int),
            back_ws(s, skip_ws(s, 0, s.len() as int), s.len() as int),
        ),
        0 <= skip_ws(s, 0, s.len() as int) <= back_ws(s, skip_ws(s, 0, s.len() as int), s.len() as int)
            <= s.len(),
        trim(s).len() > 0 ==> !is_ws(trim(s)[0]) && !is_ws(trim(s).last()),
        forall|k: int| 0 <= k < skip_ws(s, 0, s.len() as int) ==> is_ws(#[trigger] s[k]),
        forall|k: int|
            back_ws(s, skip_ws(s, 0, s.len() as int), s.len() as int) <= k < s.len() ==> is_ws(
                #[trigger] s[k],
            ),
{
    let a = skip_ws(s, 0, s.len() as int);
    lemma_skip_ws_bounds(s, 0, s.len() as int);
    lemma_back_ws_bounds(s, a, s.len() as int);
}

/// Trimming what starts and ends with characters that are not white space
/// changes nothing.
pub proof fn lemma_trim_trimmed(t: Seq<char>)
    requires
        t.len() > 0,
        !is_ws(t[0]),
        !is_ws(t.last()),
    ensures
        trim(t) == t,
{
    assert(skip_ws(t, 0, t.len() as int) == 0);
    assert(back_ws(t, 0, t.len() as int) == t.len());
    assert(t.subrange(0, t.len() as int) =~= t);
}

/// Trimming is idempotent.
pub proof fn lemma_trim_idempotent(s: Seq<char>)
    ensures
        trim(trim(s)) == trim(s),
{
    lemma_trim_shape(s);
    let t = trim(s);
    if t.len() > 0 {
        lemma_trim_trimmed(t);
    } else {
        assert(skip_ws(t, 0, 0) == 0);
        assert(t.subrange(0, 0) =~= t);
    }
}

/// Where `skip_ws` stops, told by the characters.
pub proof fn lemma_skip_ws_at(s: Seq<char>, i: int, j: int, k: int)
    requires
        i <= k <= j,
        forall|m: int| i <= m < k ==> is_ws(#[trigger] s[m]),
        k == j || !is_ws(s[k]),
    ensures
        skip_ws(s, i, j) == k,
    decreases k - i,
{
    if i < k {
        lemma_skip_ws_at(s, i + 1, j, k);
    }
}

/// Where `back_ws` stops, told by the characters.
pub proof fn lemma_back_ws_at(s: Seq<char>, i: int, j: int, k: int)
    requires
        i <= k <= j,
        forall|m: int| k <= m < j ==> is_ws(#[trigger] s[m]),
        k == i || !is_ws(s[k - 1]),
    ensures
        back_ws(s, i, j) == k,
    decreases j - k,
{
    if k < j {
        lemma_back_ws_at(s, i, j - 1, k);
    }
}

/// What `trim` keeps, told by the characters: white space before `a` and
/// from `b` on, and none at the ends of `s[a..b]`.
pub proof fn lemma_trim_at(s: Seq<char>, a: int, b: int)
    requires
        0 <= a <= b <= s.len(),
        forall|m: int| 0 <= m < a ==> is_ws(#[trigger] s[m]),
        forall|m: int| b <= m < s.len() ==> is_ws(#[trigger] s[m]),
        a < b ==> !is_ws(s[a]) && !is_ws(s[b - 1]),
    ensures
        trim(s) == s.subrange(a, b),
{
    if a < b {
        lemma_skip_ws_at(s, 0, s.len() as int, a);
        lemma_back_ws_at(s, a, s.len() as int, b);
    } else {
        assert forall|m: int| 0 <= m < s.len() implies is_ws(#[trigger] s[m]) by {}
        lemma_skip_ws_at(s, 0, s.len() as int, s.len() as int);
        lemma_back_ws_at(s, s.len() as int, s.len() as int, s.len() as int);
        assert(s.subrange(s.len() as int, s.len() as int) =~= s.subrange(a, b));
    }
}

/// White space around `l` does not change what trimming keeps.
pub proof fn lemma_trim_around(c1: char, l: Seq<char>, c2: char)
    requires
        is_ws(c1),
        is_ws(c2),
    ensures
        trim(seq![c1] + l + seq![c2]) == trim(l),
{
    let y = seq![c1] + l + seq![c2];
    lemma_trim_shape(l);
    let a = skip_ws(l, 0, l.len() as int);
    let b = back_ws(l, a, l.len() as int);
    assert forall|m: int| 0 <= m < a + 1 implies is_ws(#[trigger] y[m]) by {
        if m > 0 {
            assert(y[m] == l[m - 1]);
        }
    }
    assert forall|m: int| b + 1 <= m < y.len() implies is_ws(#[trigger] y[m]) by {
        if m < y.len() - 1 {
            assert(y[m] == l[m - 1]);
        }
    }
    if a < b {
        assert(y[a + 1] == l[a]);
        assert(y[b] == l[b - 1]);
    }
    lemma_trim_at(y, a + 1, b + 1);
    assert(y.subrange(a + 1, b + 1) =~= l.subrange(a, b));
}

/// What `find_from` finds: no `c` before it, and `c` at it unless it is the end.
pub proof fn lemma_find_from_chars(s: Seq<char>, i: int, c: char)
    requires
        0 <= i <= s.len(),
    ensures
        forall|k: int| i <= k < find_from(s, i, c) ==> s[k] != c,
        find_from(s, i, c) < s.len() ==> s[find_from(s, i, c)] == c,
    decreases s.len() - i,
{
    if 0 <= i < s.len() && s[i] != c {
        lemma_find_from_chars(s, i + 1, c);
    }
}

/// White space at the start does not change what trimming keeps.
pub proof fn lemma_trim_drop_first(x: Seq<char>)
    requires
        x.len() > 0,
        is_ws(x[0]),
    ensures
        trim(x) == trim(x.drop_first()),
{
    let y = x.drop_first();
    lemma_trim_shape(y);
    let a = skip_ws(y, 0, y.len() as int);
    let b = back_ws(y, a, y.len() as int);
    assert forall|m: int| 0 <= m < a + 1 implies is_ws(#[trigger] x[m]) by {
        if m > 0 {
            assert(x[m] == y[m - 1]);
        }
    }
    assert forall|m: int| b + 1 <= m < x.len() implies is_ws(#[trigger] x[m]) by {
        assert(x[m] == y[m - 1]);
    }
    if a < b {
        assert(x[a + 1] == y[a]);
        assert(x[b] == y[b - 1]);
    }
    lemma_trim_at(x, a + 1, b + 1);
    assert(x.subrange(a + 1, b + 1) =~= y.subrange(a, b));
}

/// White space at the end does not change what trimming keeps.
pub proof fn lemma_trim_drop_last(x: Seq<char>)
    requires
        x.len() > 0,
        is_ws(x.last()),
    ensures
        trim(x) == trim(x.drop_last()),
{
    let y = x.drop_last();
    lemma_trim_shape(y);
    let a = skip_ws(y, 0, y.len() as int);
    let b = back_ws(y, a, y.len() as int);
    assert forall|m: int| 0 <= m < a implies is_ws(#[trigger] x[m]) by {
        assert(x[m] == y[m]);
    }
    assert forall|m: int| b <= m < x.len() implies is_ws(#[trigger] x[m]) by {
        if m < x.len() - 1 {
            assert(x[m] == y[m]);
        }
    }
    if a < b {
        assert(x[a] == y[a]);
        assert(x[b - 1] == y[b - 1]);
    }
    lemma_trim_at(x, a, b);
    assert(x.subrange(a, b) =~= y.subrange(a, b));
}

/// Where `find_from` stops, told by the characters.
pub proof fn lemma_find_from_at(s: Seq<char>, i: int, k: int, c: char)
    requires
        0 <= i <= k <= s.len(),
        forall|j: int| i <= j < k ==> s[j] != c,
        k == s.len() || s[k] == c,
    ensures
        find_from(s, i, c) == k,
    decreases k - i,
{
    if i < k {
        lemma_find_from_at(s, i + 1, k, c);
    }
}

} // verus!
