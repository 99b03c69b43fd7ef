//! Scanning of format strings: where the placeholders stand, and what the
//! text of one placeholder asks for.

use crate::text::{
    chars_of, decimal_of, digit_end, find_digit_end, find_word_end, lemma_digit_end,
    lemma_word_end, parse_decimal, spec_is_digit, word_end,
};
use vstd::prelude::*;

verus! {

/// An opening or closing brace.
pub open spec fn is_brace(c: char) -> bool {
    c == '{' || c == '}'
}

/// The first position at or after `i` that holds a brace; the length of the
/// text where none follows.
pub open spec fn brace_from(s: Seq<char>, i: int) -> int
    decreases s.len() - i,
{
    if 0 <= i < s.len() && !is_brace(s[i]) {
        brace_from(s, i + 1)
    } else {
        i
    }
}

/// The text from `i` to `j` is one placeholder: an opening brace, characters
/// that are no braces, and a closing brace.
pub open spec fn placeholder_at(s: Seq<char>, i: int, j: int) -> bool {
    &&& 0 <= i
    &&& i + 2 <= j <= s.len()
    &&& s[i] == '{'
    &&& s[j - 1] == '}'
    &&& forall|k: int| i < k < j - 1 ==> !is_brace(#[trigger] s[k])
}

/// A doubled brace stands at `i`: it is literal text.
pub open spec fn escape_at(s: Seq<char>, i: int) -> bool {
    &&& 0 <= i
    &&& i + 1 < s.len()
    &&& is_brace(s[i])
    &&& s[i + 1] == s[i]
}

/// Where the placeholder that opens at `i` ends, if one opens there.
pub open spec fn placeholder_end(s: Seq<char>, i: int) -> Option<int> {
    let k = brace_from(s, i + 1);
    if 0 <= i < s.len() && s[i] == '{' && k < s.len() && s[k] == '}' {
        Some(k + 1)
    } else {
        None
    }
}

/// The placeholders found from position `i` on, each as the pair of its
/// start and its end: the text is read from left to right, a doubled brace
/// is passed over, and a character that opens nothing is skipped.
pub open spec fn scan_from(s: Seq<char>, i: int) -> Seq<(int, int)>
    decreases s.len() - i,
{
    if i < 0 || i >= s.len() {
        Seq::empty()
    } else if escape_at(s, i) {
        scan_from(s, i + 2)
    } else {
        match placeholder_end(s, i) {
            Some(j) => {
                proof {
                    lemma_brace_from(s, i + 1);
                }
                seq![(i, j)] + scan_from(s, j)
            },
            None => scan_from(s, i + 1),
        }
    }
}

/// The placeholders of a format string.
pub open spec fn scan(s: Seq<char>) -> Seq<(int, int)> {
    scan_from(s, 0)
}

/// The text of each placeholder of a format string.
pub open spec fn placeholder_texts(s: Seq<char>) -> Seq<Seq<char>> {
    Seq::new(scan(s).len(), |k: int| s.subrange(scan(s)[k].0, scan(s)[k].1))
}

/// Pairs of machine integers as pairs of integers.
pub open spec fn spans_of(v: Seq<(usize, usize)>) -> Seq<(int, int)> {
    Seq::new(v.len(), |k: int| (v[k].0 as int, v[k].1 as int))
}

/// `brace_from` stays inside the text, passes over no brace, and stops at one.
pub proof fn lemma_brace_from(s: Seq<char>, i: int)
    requires
        0 <= i,
    ensures
        i <= brace_from(s, i),
        i <= s.len() ==> brace_from(s, i) <= s.len(),
        forall|k: int| i <= k < brace_from(s, i) ==> !is_brace(#[trigger] s[k]),
        brace_from(s, i) < s.len() ==> is_brace(s[brace_from(s, i)]),
    decreases s.len() - i,
{
    if i < s.len() && !is_brace(s[i]) {
        lemma_brace_from(s, i + 1);
    }
}

/// Past characters that are no braces, the next brace is the same.
pub proof fn lemma_brace_run(s: Seq<char>, i: int, j: int)
    requires
        0 <= i <= j <= s.len(),
        forall|k: int| i <= k < j ==> !is_brace(#[trigger] s[k]),
    ensures
        brace_from(s, i) == brace_from(s, j),
    decreases j - i,
{
    if i < j {
        lemma_brace_run(s, i + 1, j);
    }
}

/// A placeholder opens at `i` and ends at `j` exactly where the text from
/// `i` to `j` is a brace pair with no brace inside.
pub proof fn lemma_placeholder_end(s: Seq<char>, i: int, j: int)
    ensures
        placeholder_end(s, i) == Some(j) <==> placeholder_at(s, i, j),
{
    if 0 <= i < s.len() {
        lemma_brace_from(s, i + 1);
        let k = brace_from(s, i + 1);
        if placeholder_at(s, i, j) {
            if k < j - 1 {
                assert(!is_brace(s[k]));
            }
            if k > j - 1 {
                assert(!is_brace(s[j - 1]));
            }
        }
    }
}

/// The position of the first brace at or after `i`.
fn find_brace(s: &Vec<char>, i: usize) -> (r: usize)
    requires
        i <= s.len(),
    ensures
        r == brace_from(s@, i as int),
        i <= r <= s.len(),
{
    let mut j: usize = i;
    while j < s.len() && s[j] != '{' && s[j] != '}'
        invariant
            i <= j <= s.len(),
            forall|k: int| i <= k < j ==> !is_brace(#[trigger] s@[k]),
        decreases s.len() - j,
    {
        j += 1;
    }
    proof {
        lemma_brace_run(s@, i as int, j as int);
    }
    j
}

/// The placeholders of a format string, each as the positions where it
/// starts and ends, in the order in which they stand in the text.
pub fn placeholder_spans(s: &Vec<char>) -> (r: Vec<(usize, usize)>)
    ensures
        spans_of(r@) == scan(s@),
        forall|k: int| 0 <= k < r.len() ==> (#[trigger] r[k]).0 + 2 <= r[k].1 <= s.len(),
        forall|k: int, l: int| 0 <= k < l < r.len() ==> (#[trigger] r[k]).1 <= (#[trigger] r[l]).0,
{
    let n = s.len();
    let mut out: Vec<(usize, usize)> = Vec::new();
    let mut i: usize = 0;
    while i < n
        invariant
            i <= n,
            n == s.len(),
            scan(s@) == spans_of(out@) + scan_from(s@, i as int),
            forall|k: int| 0 <= k < out.len() ==> (#[trigger] out[k]).0 + 2 <= out[k].1 <= i,
            forall|k: int, l: int|
                0 <= k < l < out.len() ==> (#[trigger] out[k]).1 <= (#[trigger] out[l]).0,
        decreases n - i,
    {
        let c = s[i];
        if (c == '{' || c == '}') && i + 1 < n && s[i + 1] == c {
            i += 2;
        } else if c == '{' {
            let k = find_brace(s, i + 1);
            if k < n && s[k] == '}' {
                let ghost before = out@;
                out.push((i, k + 1));
                proof {
                    assert(spans_of(out@) =~= spans_of(before) + seq![(i as int, k + 1)]);
                    assert(scan_from(s@, i as int) == seq![(i as int, k + 1)] + scan_from(
                        s@,
                        k + 1,
                    ));
                    assert(scan(s@) =~= spans_of(out@) + scan_from(s@, k + 1));
                }
                i = k + 1;
            } else {
                i += 1;
            }
        } else {
            i += 1;
        }
    }
    proof {
        assert(scan(s@) =~= spans_of(out@));
    }
    out
}

/// The text of each placeholder of a format string, in the order in which
/// they stand in it. Doubled braces are literal text and give none.
pub fn all_placeholders<'a>(s: &'a str) -> (r: Vec<&'a str>)
    ensures
        r.len() == placeholder_texts(s@).len(),
        forall|k: int| 0 <= k < r.len() ==> (#[trigger] r[k])@ == placeholder_texts(s@)[k],
{
    let chars = chars_of(s);
    let spans = placeholder_spans(&chars);
    let mut out: Vec<&'a str> = Vec::new();
    let mut k: usize = 0;
    while k < spans.len()
        invariant
            k <= spans.len(),
            chars@ == s@,
            spans_of(spans@) == scan(s@),
            forall|j: int|
                0 <= j < spans.len() ==> (#[trigger] spans[j]).0 + 2 <= spans[j].1 <= chars.len(),
            out.len() == k,
            forall|j: int| 0 <= j < k ==> (#[trigger] out[j])@ == placeholder_texts(s@)[j],
        decreases spans.len() - k,
    {
        let (a, b) = spans[k];
        proof {
            assert(spans_of(spans@)[k as int] == (a as int, b as int));
        }
        out.push(s.substring_char(a, b));
        k += 1;
    }
    proof {
        assert(spans_of(spans@).len() == spans.len());
    }
    out
}

/// One of `<`, `^`, `>`.
pub open spec fn is_align(c: char) -> bool {
    c == '<' || c == '^' || c == '>'
}

/// A character that selects a formatting behaviour by itself.
pub open spec fn is_selector_char(c: char) -> bool {
    c == '?' || c == 'o' || c == 'x' || c == 'X' || c == 'p' || c == 'b' || c == 'e' || c == 'E'
}

/// Where the argument that starts at `i` ends: an identifier, or an integer
/// written in digits. `i` itself where no argument starts there.
pub open spec fn argument_end(s: Seq<char>, i: int) -> int {
    let j = word_end(s, i);
    if i < j && (spec_is_digit(s[i]) ==> digit_end(s, i) == j) {
        j
    } else {
        i
    }
}

/// Where the count that starts at `i` ends: an argument followed by `$`, or
/// an integer. `i` itself where no count starts there.
pub open spec fn count_end(s: Seq<char>, i: int) -> int {
    let j = argument_end(s, i);
    if i < j && j < s.len() && s[j] == '$' {
        j + 1
    } else {
        digit_end(s, i)
    }
}

/// Past an alignment at `i`, with or without a fill character before it.
pub open spec fn fill_align_end(s: Seq<char>, i: int) -> int {
    if 0 <= i && i + 1 < s.len() && is_align(s[i + 1]) {
        i + 2
    } else if 0 <= i < s.len() && is_align(s[i]) {
        i + 1
    } else {
        i
    }
}

/// Past a sign at `i`.
pub open spec fn sign_end(s: Seq<char>, i: int) -> int {
    if 0 <= i < s.len() && (s[i] == '+' || s[i] == '-') {
        i + 1
    } else {
        i
    }
}

/// Past a `#` at `i`.
pub open spec fn alternate_end(s: Seq<char>, i: int) -> int {
    if 0 <= i < s.len() && s[i] == '#' {
        i + 1
    } else {
        i
    }
}

/// Past a `0` flag at `i`. A `0` that `$` follows is no flag: it names the
/// argument that holds the width.
pub open spec fn zero_end(s: Seq<char>, i: int) -> int {
    if 0 <= i < s.len() && s[i] == '0' && !(i + 1 < s.len() && s[i + 1] == '$') {
        i + 1
    } else {
        i
    }
}

/// Past a precision at `i`: a dot, then a count or `*`. `None` where a dot
/// stands there with neither behind it.
pub open spec fn precision_end(s: Seq<char>, i: int) -> Option<int> {
    if 0 <= i < s.len() && s[i] == '.' {
        if i + 1 < s.len() && s[i + 1] == '*' {
            Some(i + 2)
        } else if count_end(s, i + 1) > i + 1 {
            Some(count_end(s, i + 1))
        } else {
            None
        }
    } else {
        Some(i)
    }
}

/// Past a type selector at `i`.
pub open spec fn selector_end(s: Seq<char>, i: int) -> int {
    if 0 <= i && i + 1 < s.len() && (s[i] == 'x' || s[i] == 'X') && s[i + 1] == '?' {
        i + 2
    } else if 0 <= i < s.len() && is_selector_char(s[i]) {
        i + 1
    } else {
        i
    }
}

/// Where the type selector of a format spec starts, the spec itself starting
/// at `i`. `None` where a precision is cut short.
pub open spec fn selector_start(s: Seq<char>, i: int) -> Option<int> {
    precision_end(
        s,
        count_end(s, zero_end(s, alternate_end(s, sign_end(s, fill_align_end(s, i))))),
    )
}

/// The position that a text names: the number written in digits directly
/// behind the opening brace, where a colon or the closing brace follows the
/// digits and a `usize` holds the number. What stands behind the colon does
/// not count.
pub open spec fn written_index(s: Seq<char>) -> Option<usize> {
    let d = digit_end(s, 1);
    if s.len() > 0 && s[0] == '{' && 1 < d < s.len() && (s[d] == ':' || s[d] == '}') {
        decimal_of(s.subrange(1, d))
    } else {
        None
    }
}

/// What one placeholder asks for.
pub struct Format {
    /// The position it names, where it names one that a `usize` holds.
    pub index: Option<usize>,
    /// Its type selector; empty where it has none.
    pub selector: Seq<char>,
}

/// What the text of a placeholder asks for; `None` where the text is no
/// well-formed placeholder.
pub open spec fn spec_format(s: Seq<char>) -> Option<Format> {
    let n = s.len() as int;
    if n < 2 || s[0] != '{' || s[n - 1] != '}' {
        None
    } else {
        let a = argument_end(s, 1);
        let index = written_index(s);
        if a == n - 1 {
            Some(Format { index, selector: Seq::empty() })
        } else if s[a] != ':' {
            None
        } else {
            match selector_start(s, a + 1) {
                None => None,
                Some(p) => if selector_end(s, p) == n - 1 {
                    Some(Format { index, selector: s.subrange(p, n - 1) })
                } else {
                    None
                },
            }
        }
    }
}

/// The result of `format` says what `spec_format` says.
pub open spec fn format_is(r: Option<(Option<usize>, Option<&str>)>, f: Option<Format>) -> bool {
    match f {
        None => r is None,
        Some(f) => {
            &&& r matches Some((index, selector))
            &&& index == f.index
            &&& match selector {
                None => f.selector.len() == 0,
                Some(t) => f.selector.len() > 0 && t@ == f.selector,
            }
        },
    }
}

/// Where the argument that starts at `i` ends.
fn find_argument_end(s: &Vec<char>, i: usize) -> (r: usize)
    requires
        i <= s.len(),
    ensures
        r == argument_end(s@, i as int),
        i <= r <= s.len(),
        i < r ==> (spec_is_digit(s@[i as int]) ==> forall|k: int|
            i <= k < r ==> spec_is_digit(#[trigger] s@[k])),
{
    let j = find_word_end(s, i);
    if i < j {
        if '0' <= s[i] && s[i] <= '9' {
            let d = find_digit_end(s, i);
            proof {
                lemma_digit_end(s@, i as int);
            }
            if d == j {
                j
            } else {
                i
            }
        } else {
            j
        }
    } else {
        i
    }
}

/// Where the count that starts at `i` ends.
fn find_count_end(s: &Vec<char>, i: usize) -> (r: usize)
    requires
        i <= s.len(),
    ensures
        r == count_end(s@, i as int),
        i <= r <= s.len(),
{
    let j = find_argument_end(s, i);
    if i < j && j < s.len() && s[j] == '$' {
        j + 1
    } else {
        find_digit_end(s, i)
    }
}

/// Where the type selector of the format spec that starts at `i` starts.
fn find_selector_start(s: &Vec<char>, i: usize) -> (r: Option<usize>)
    requires
        i <= s.len(),
    ensures
        match selector_start(s@, i as int) {
            None => r is None,
            Some(p) => r == Some(p as usize) && i <= p <= s.len(),
        },
{
    let n = s.len();
    let mut p: usize = i;
    if p < n && p + 1 < n && (s[p + 1] == '<' || s[p + 1] == '^' || s[p + 1] == '>') {
        p += 2;
    } else if p < n && (s[p] == '<' || s[p] == '^' || s[p] == '>') {
        p += 1;
    }
    if p < n && (s[p] == '+' || s[p] == '-') {
        p += 1;
    }
    if p < n && s[p] == '#' {
        p += 1;
    }
    if p < n && s[p] == '0' && !(p + 1 < n && s[p + 1] == '$') {
        p += 1;
    }
    p = find_count_end(s, p);
    if p < n && s[p] == '.' {
        if p + 1 < n && s[p + 1] == '*' {
            Some(p + 2)
        } else {
            let q = find_count_end(s, p + 1);
            if q > p + 1 {
                Some(q)
            } else {
                None
            }
        }
    } else {
        Some(p)
    }
}

/// Past the type selector at `i`.
fn find_selector_end(s: &Vec<char>, i: usize) -> (r: usize)
    requires
        i <= s.len(),
    ensures
        r == selector_end(s@, i as int),
        i <= r <= s.len(),
{
    let n = s.len();
    if i < n && i + 1 < n && (s[i] == 'x' || s[i] == 'X') && s[i + 1] == '?' {
        i + 2
    } else if i < n && (s[i] == '?' || s[i] == 'o' || s[i] == 'x' || s[i] == 'X' || s[i] == 'p'
        || s[i] == 'b' || s[i] == 'e' || s[i] == 'E') {
        i + 1
    } else {
        i
    }
}

/// The position that the characters name in digits directly behind the
/// opening brace.
pub fn parse_index(s: &Vec<char>) -> (r: Option<usize>)
    ensures
        r == written_index(s@),
{
    if s.len() == 0 || s[0] != '{' {
        return None;
    }
    let d = find_digit_end(s, 1);
    if 1 < d && d < s.len() && (s[d] == ':' || s[d] == '}') {
        parse_decimal(s, 1, d)
    } else {
        None
    }
}

/// What the characters of one placeholder ask for: the position it names,
/// and where its type selector starts (it ends before the closing brace).
pub fn parse_format(s: &Vec<char>) -> (r: Option<(Option<usize>, usize)>)
    ensures
        match spec_format(s@) {
            None => r is None,
            Some(f) => {
                &&& r matches Some((index, p))
                &&& index == f.index
                &&& 1 <= p <= s.len() - 1
                &&& f.selector == s@.subrange(p as int, s.len() - 1)
            },
        },
{
    let n = s.len();
    if n < 2 || s[0] != '{' || s[n - 1] != '}' {
        return None;
    }
    let a = find_argument_end(s, 1);
    proof {
        lemma_word_end(s@, 1);
    }
    let index = parse_index(s);
    if a == n - 1 {
        proof {
            assert(s@.subrange(a as int, n - 1) =~= Seq::<char>::empty());
        }
        return Some((index, a));
    }
    if s[a] != ':' {
        return None;
    }
    match find_selector_start(s, a + 1) {
        None => None,
        Some(p) => {
            if find_selector_end(s, p) == n - 1 {
                Some((index, p))
            } else {
                None
            }
        },
    }
}

/// What the text of one placeholder asks for: the position it names in
/// digits, if it names one that a `usize` holds, and its type selector, if
/// it has one. `None` where the text is no well-formed placeholder.
pub fn format<'a>(p: &'a str) -> (r: Option<(Option<usize>, Option<&'a str>)>)
    ensures
        format_is(r, spec_format(p@)),
{
    let chars = chars_of(p);
    match parse_format(&chars) {
        None => None,
        Some((index, start)) => {
            let end = chars.len() - 1;
            if start < end {
                Some((index, Some(p.substring_char(start, end))))
            } else {
                Some((index, None))
            }
        },
    }
}

} // verus!
