//! The grammar of a placeholder, and that `spec_format` reads by it:
//!
//! ```text
//! placeholder := '{' [argument] [':' spec] '}'
//! argument    := digit+ | identifier
//! spec        := [[fill] align] [sign] ['#'] ['0'] [width] ['.' precision] [selector]
//! align       := '<' | '^' | '>'          sign := '+' | '-'
//! width       := count                    precision := count | '*'
//! count       := argument '$' | digit+
//! selector    := '?' | 'x?' | 'X?' | 'o' | 'x' | 'X' | 'p' | 'b' | 'e' | 'E'
//! ```

use crate::parsing::{
    alternate_end, argument_end, count_end, fill_align_end, is_align, is_selector_char,
    precision_end, selector_end, selector_start, sign_end, spec_format, zero_end, Format,
};
use crate::text::{
    decimal, lemma_digit_end, lemma_digit_run, lemma_word_end, lemma_word_run, spec_is_digit,
    spec_is_word,
};
use vstd::prelude::*;

verus! {

/// Only digits stand from `i` to `j`.
pub open spec fn all_digits(s: Seq<char>, i: int, j: int) -> bool {
    forall|k: int| i <= k < j ==> spec_is_digit(#[trigger] s[k])
}

/// Only word characters stand from `i` to `j`.
pub open spec fn all_word(s: Seq<char>, i: int, j: int) -> bool {
    forall|k: int| i <= k < j ==> spec_is_word(#[trigger] s[k])
}

/// An argument stands from `i` to `j`: an integer or an identifier.
pub open spec fn is_argument(s: Seq<char>, i: int, j: int) -> bool {
    &&& 0 <= i < j <= s.len()
    &&& all_word(s, i, j)
    &&& spec_is_digit(s[i]) ==> all_digits(s, i, j)
}

/// A count stands from `i` to `j`: an integer, or an argument and `$`.
pub open spec fn is_count(s: Seq<char>, i: int, j: int) -> bool {
    ||| 0 <= i < j <= s.len() && all_digits(s, i, j)
    ||| is_argument(s, i, j - 1) && j <= s.len() && s[j - 1] == '$'
}

/// The one character `c` stands from `i` to `j`.
pub open spec fn is_flag(s: Seq<char>, i: int, j: int, c: char) -> bool {
    0 <= i && j == i + 1 && j <= s.len() && s[i] == c
}

/// An alignment stands from `i` to `j`, with or without a fill character
/// before it.
pub open spec fn is_fill_align(s: Seq<char>, i: int, j: int) -> bool {
    &&& 0 <= i
    &&& j <= s.len()
    &&& (j == i + 1 && is_align(s[i])) || (j == i + 2 && is_align(s[i + 1]))
}

/// From `i` to `j` stands what may stand between `#` and the precision: a
/// `0` flag or none, then a width or none.
pub open spec fn is_zero_width(s: Seq<char>, i: int, j: int) -> bool {
    ||| i == j
    ||| is_count(s, i, j)
    ||| is_flag(s, i, i + 1, '0') && (i + 1 == j || is_count(s, i + 1, j))
}

/// A precision stands from `i` to `j`: a dot, then a count or `*`.
pub open spec fn is_precision(s: Seq<char>, i: int, j: int) -> bool {
    &&& 0 <= i
    &&& i + 1 < j <= s.len()
    &&& s[i] == '.'
    &&& is_count(s, i + 1, j) || (j == i + 2 && s[i + 1] == '*')
}

/// A type selector stands from `i` to `j`.
pub open spec fn is_selector(s: Seq<char>, i: int, j: int) -> bool {
    &&& 0 <= i
    &&& j <= s.len()
    &&& (j == i + 1 && is_selector_char(s[i])) || (j == i + 2 && (s[i] == 'x' || s[i] == 'X')
        && s[i + 1] == '?')
}

/// Where the parts of a placeholder end.
pub struct Cuts {
    pub argument: int,
    pub align: int,
    pub sign: int,
    pub alternate: int,
    pub width: int,
    pub precision: int,
}

/// The text is a placeholder whose parts end where `c` says. Behind the
/// opening brace stands the argument; then either the closing brace, or a
/// colon and the parts of the spec in their order, and the closing brace.
/// Every part but the braces may be missing.
pub open spec fn reads_as(s: Seq<char>, c: Cuts) -> bool {
    let n = s.len() as int;
    &&& n >= 2
    &&& s[0] == '{'
    &&& s[n - 1] == '}'
    &&& 1 <= c.argument <= n - 1
    &&& c.argument == 1 || is_argument(s, 1, c.argument)
    &&& if c.argument == n - 1 {
        c.precision == n - 1
    } else {
        &&& s[c.argument] == ':'
        &&& c.argument + 1 <= c.align <= c.sign <= c.alternate <= c.width <= c.precision <= n - 1
        &&& c.align == c.argument + 1 || is_fill_align(s, c.argument + 1, c.align)
        &&& c.sign == c.align || is_flag(s, c.align, c.sign, '+') || is_flag(
            s,
            c.align,
            c.sign,
            '-',
        )
        &&& c.alternate == c.sign || is_flag(s, c.sign, c.alternate, '#')
        &&& is_zero_width(s, c.alternate, c.width)
        &&& c.precision == c.width || is_precision(s, c.width, c.precision)
        &&& c.precision == n - 1 || is_selector(s, c.precision, n - 1)
    }
}

/// The number that the argument writes, where it is an integer.
pub open spec fn named_number(s: Seq<char>, c: Cuts) -> Option<nat> {
    if 1 < c.argument && spec_is_digit(s[1]) {
        Some(decimal(s.subrange(1, c.argument)))
    } else {
        None
    }
}

/// What a placeholder with these parts asks for: the position that its
/// argument names, where that is a number that a `usize` holds, and its type
/// selector.
pub open spec fn asked(s: Seq<char>, c: Cuts) -> Format {
    let selector = s.subrange(c.precision, s.len() - 1);
    match named_number(s, c) {
        Some(v) => if v <= usize::MAX {
            Format { index: Some(v as usize), selector }
        } else {
            Format { index: None, selector }
        },
        None => Format { index: None, selector },
    }
}

/// An argument that a character which is no word character follows is
/// found whole.
proof fn lemma_argument_end(s: Seq<char>, i: int, j: int)
    requires
        is_argument(s, i, j),
        j < s.len(),
        !spec_is_word(s[j]),
    ensures
        argument_end(s, i) == j,
{
    lemma_word_run(s, i, j);
    if spec_is_digit(s[i]) {
        lemma_digit_run(s, i, j);
    }
}

/// An integer that neither a digit nor `$` follows is found as the count.
proof fn lemma_count_integer(s: Seq<char>, x: int, r: int)
    requires
        0 <= x < r < s.len(),
        all_digits(s, x, r),
        !spec_is_digit(s[r]),
        s[r] != '$',
    ensures
        count_end(s, x) == r,
{
    lemma_digit_run(s, x, r);
    lemma_word_run(s, x, r);
    lemma_word_end(s, r);
}

/// An argument and `$` are found as the count.
proof fn lemma_count_parameter(s: Seq<char>, x: int, r: int)
    requires
        is_argument(s, x, r - 1),
        r <= s.len(),
        s[r - 1] == '$',
    ensures
        count_end(s, x) == r,
{
    lemma_argument_end(s, x, r - 1);
}

/// No count is found where none starts.
proof fn lemma_no_count(s: Seq<char>, x: int)
    requires
        0 <= x < s.len(),
        !spec_is_digit(s[x]),
        spec_is_word(s[x]) ==> x + 1 < s.len() && !spec_is_word(s[x + 1]) && s[x + 1] != '$',
    ensures
        count_end(s, x) == x,
{
    if spec_is_word(s[x]) {
        lemma_word_run(s, x, x + 1);
    }
}

/// What may follow a width or a precision: at `r` stands a dot, a type
/// selector or the closing brace, and behind a selector that is a word
/// character stands `?` or the closing brace.
spec fn closes(s: Seq<char>, r: int) -> bool {
    &&& 0 <= r < s.len()
    &&& !spec_is_digit(s[r])
    &&& s[r] != '$'
    &&& spec_is_word(s[r]) ==> r + 1 < s.len() && !spec_is_word(s[r + 1]) && s[r + 1] != '$'
}

/// A count before what may follow it is found whole.
proof fn lemma_count_end(s: Seq<char>, x: int, r: int)
    requires
        is_count(s, x, r),
        closes(s, r),
    ensures
        count_end(s, x) == r,
{
    if is_argument(s, x, r - 1) && s[r - 1] == '$' {
        lemma_count_parameter(s, x, r);
    } else {
        lemma_count_integer(s, x, r);
    }
}

/// A `0` flag and a width before what may follow them are found whole,
/// whichever of the two a leading `0` is read as.
proof fn lemma_zero_width(s: Seq<char>, h: int, w: int)
    requires
        0 <= h <= w,
        is_zero_width(s, h, w),
        closes(s, w),
    ensures
        count_end(s, zero_end(s, h)) == w,
{
    let z = zero_end(s, h);
    if h == w {
        lemma_no_count(s, w);
    } else if is_flag(s, h, h + 1, '0') && (h + 1 == w || is_count(s, h + 1, w)) {
        if h + 1 == w {
            lemma_no_count(s, w);
        } else {
            if s[h + 1] == '$' {
                assert(!spec_is_word(s[h + 1]));
                assert(false);
            }
            lemma_count_end(s, h + 1, w);
        }
    } else {
        assert(is_count(s, h, w));
        if z == h {
            lemma_count_end(s, h, w);
        } else {
            assert(s[h] == '0' && s[h + 1] != '$');
            if is_argument(s, h, w - 1) && s[w - 1] == '$' {
                assert(h + 1 < w - 1);
                assert(is_argument(s, h + 1, w - 1));
                lemma_count_parameter(s, h + 1, w);
            } else {
                assert(all_digits(s, h, w));
                if h + 1 == w {
                    lemma_no_count(s, w);
                } else {
                    lemma_count_integer(s, h + 1, w);
                }
            }
        }
    }
}

/// A text that is a placeholder by the grammar is read as one, and asks for
/// what its parts say.
pub proof fn lemma_format_reads_by_the_grammar(s: Seq<char>, c: Cuts)
    requires
        reads_as(s, c),
    ensures
        spec_format(s) == Some(asked(s, c)),
{
    let n = s.len() as int;
    let a = c.argument;
    if a == 1 {
        assert(!spec_is_word(s[1]));
        assert(argument_end(s, 1) == 1);
    } else {
        lemma_argument_end(s, 1, a);
    }
    assert(argument_end(s, 1) == a);
    if a == n - 1 {
        assert(s.subrange(n - 1, n - 1) =~= Seq::<char>::empty());
    } else {
        let p = c.precision;
        let w = c.width;
        // What follows the precision, and what follows the width.
        assert(closes(s, p));
        assert(closes(s, w)) by {
            if w < p {
                assert(s[w] == '.');
            }
        }
        // No alignment, sign or `#` stands behind its place.
        assert forall|k: int| c.align <= k < n implies !is_align(#[trigger] s[k]) by {
            lemma_part_chars(s, c, k);
        }
        assert forall|k: int| c.sign <= k < n implies s[k] != '+' && #[trigger] s[k] != '-' by {
            lemma_part_chars(s, c, k);
        }
        assert forall|k: int| c.alternate <= k < n implies #[trigger] s[k] != '#' by {
            lemma_part_chars(s, c, k);
        }
        assert(fill_align_end(s, a + 1) == c.align);
        assert(sign_end(s, c.align) == c.sign);
        assert(alternate_end(s, c.sign) == c.alternate);
        lemma_zero_width(s, c.alternate, w);
        assert(count_end(s, zero_end(s, c.alternate)) == w);
        if w == p {
            assert(s[w] != '.');
        } else if s[w + 1] == '*' {
            assert(!spec_is_word(s[w + 1]));
            assert(p == w + 2);
        } else {
            lemma_count_end(s, w + 1, p);
        }
        assert(precision_end(s, w) == Some(p));
        assert(selector_start(s, a + 1) == Some(p));
        assert(selector_end(s, p) == n - 1);
    }
}

/// The characters of the parts of a spec: from the alignment on stands no
/// alignment, from the sign on no sign, from `#` on no `#`.
proof fn lemma_part_chars(s: Seq<char>, c: Cuts, k: int)
    requires
        reads_as(s, c),
        c.argument < s.len() - 1,
        c.align <= k < s.len(),
    ensures
        !is_align(s[k]),
        c.sign <= k ==> s[k] != '+' && s[k] != '-',
        c.alternate <= k ==> s[k] != '#',
{
    let n = s.len() as int;
    if k < c.sign {
    } else if k < c.alternate {
    } else if k < c.width {
        let h = c.alternate;
        let w = c.width;
        assert(spec_is_word(s[k]) || s[k] == '$') by {
            if is_count(s, h, w) {
                if is_argument(s, h, w - 1) && s[w - 1] == '$' {
                    if k < w - 1 {
                        assert(spec_is_word(s[k]));
                    }
                } else {
                    assert(spec_is_digit(s[k]));
                }
            } else {
                if k > h {
                    if is_argument(s, h + 1, w - 1) && s[w - 1] == '$' {
                        if k < w - 1 {
                            assert(spec_is_word(s[k]));
                        }
                    } else {
                        assert(spec_is_digit(s[k]));
                    }
                }
            }
        }
    } else if k < c.precision {
        let w = c.width;
        let p = c.precision;
        assert(spec_is_word(s[k]) || s[k] == '$' || s[k] == '.' || s[k] == '*') by {
            if k > w && is_count(s, w + 1, p) {
                if is_argument(s, w + 1, p - 1) && s[p - 1] == '$' {
                    if k < p - 1 {
                        assert(spec_is_word(s[k]));
                    }
                } else {
                    assert(spec_is_digit(s[k]));
                }
            }
        }
    } else if k < n - 1 {
    } else {
    }
}

/// A text that is read as a placeholder is one by the grammar.
pub proof fn lemma_format_only_by_the_grammar(s: Seq<char>)
    requires
        spec_format(s) is Some,
    ensures
        exists|c: Cuts| reads_as(s, c) && Some(asked(s, c)) == spec_format(s),
{
    let n = s.len() as int;
    let a = argument_end(s, 1);
    lemma_word_end(s, 1);
    lemma_digit_end(s, 1);
    if a > 1 {
        assert(is_argument(s, 1, a));
    }
    if a == n - 1 {
        let c = Cuts { argument: a, align: a, sign: a, alternate: a, width: a, precision: a };
        assert(reads_as(s, c));
        assert(s.subrange(n - 1, n - 1) =~= Seq::<char>::empty());
        assert(Some(asked(s, c)) == spec_format(s));
    } else {
        let f = fill_align_end(s, a + 1);
        let g = sign_end(s, f);
        let h = alternate_end(s, g);
        let z = zero_end(s, h);
        let w = count_end(s, z);
        let p = precision_end(s, w)->0;
        lemma_count_is_count(s, z);
        if w < p && s[w + 1] != '*' {
            lemma_count_is_count(s, w + 1);
        }
        let c = Cuts { argument: a, align: f, sign: g, alternate: h, width: w, precision: p };
        assert(selector_end(s, p) == n - 1);
        assert(is_zero_width(s, h, w));
        assert(reads_as(s, c));
        assert(Some(asked(s, c)) == spec_format(s));
    }
}

/// Where a count is found, one stands.
proof fn lemma_count_is_count(s: Seq<char>, x: int)
    requires
        0 <= x <= s.len(),
    ensures
        x <= count_end(s, x) <= s.len(),
        count_end(s, x) > x ==> is_count(s, x, count_end(s, x)),
{
    lemma_word_end(s, x);
    lemma_digit_end(s, x);
    let j = argument_end(s, x);
    if x < j {
        assert(is_argument(s, x, j));
    }
}

} // verus!
