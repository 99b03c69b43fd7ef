//! Placeholders of a format string, each resolved to the argument it takes
//! and the behaviour it asks of that argument.

use crate::behavior::Behavior;
use crate::parsing::{
    parse_format, parse_index, placeholder_spans, placeholder_texts, scan, selector_end, spans_of,
    spec_format, written_index,
};
use crate::text::chars_of;
use vstd::prelude::*;

verus! {

/// A placeholder with its argument resolved.
#[derive(Clone, Copy, Debug, PartialEq, Eq, Structural)]
pub struct Slot {
    /// The position of the argument that the placeholder takes.
    pub position: usize,
    /// The behaviour that renders the argument.
    pub behavior: Behavior,
}

/// Representation of formatting placeholder.
#[derive(Debug, PartialEq)]
pub struct Placeholder {
    /// Position of formatting argument to be used for this placeholder.
    pub position: usize,
    /// Name of the `core::fmt` trait to be used for rendering this placeholder.
    pub trait_name: &'static str,
}

/// The position that the text of a placeholder names: the number written
/// in digits behind its opening brace, whatever its format spec holds.
pub open spec fn asked_index(text: Seq<char>) -> Option<usize> {
    written_index(text)
}

/// The behaviour that the text of a placeholder asks for: `Display` where it
/// has no type selector, or is no well-formed placeholder.
pub open spec fn asked_behavior(text: Seq<char>) -> Behavior {
    match spec_format(text) {
        Some(f) => match Behavior::spec_from_selector(f.selector) {
            Some(b) => b,
            None => Behavior::Display,
        },
        None => Behavior::Display,
    }
}

/// How many of the first `k` placeholders name no position.
pub open spec fn implicit_before(texts: Seq<Seq<char>>, k: int) -> nat
    decreases k,
{
    if k <= 0 {
        0
    } else {
        implicit_before(texts, k - 1) + if asked_index(texts[k - 1]) is None {
            1nat
        } else {
            0nat
        }
    }
}

/// The position of the argument that the `k`-th placeholder takes: the one
/// it names, or else the next that no placeholder before it took without
/// naming one.
pub open spec fn position_of(texts: Seq<Seq<char>>, k: int) -> nat {
    match asked_index(texts[k]) {
        Some(n) => n as nat,
        None => implicit_before(texts, k),
    }
}

/// The placeholders of a format string, resolved, in the order in which they
/// stand in it.
pub open spec fn slots(s: Seq<char>) -> Seq<Slot> {
    let texts = placeholder_texts(s);
    Seq::new(
        texts.len(),
        |k: int|
            Slot { position: position_of(texts, k) as usize, behavior: asked_behavior(texts[k]) },
    )
}

/// No more placeholders name no position than there are placeholders.
pub proof fn lemma_implicit_before(texts: Seq<Seq<char>>, k: int)
    requires
        0 <= k,
    ensures
        implicit_before(texts, k) <= k,
    decreases k,
{
    if k > 0 {
        lemma_implicit_before(texts, k - 1);
    }
}

/// Every type selector that a well-formed placeholder can hold asks for one
/// of the nine behaviours.
pub proof fn lemma_selector_is_known(text: Seq<char>)
    ensures
        spec_format(text) matches Some(f) ==> Behavior::spec_from_selector(f.selector) is Some,
{
    if let Some(f) = spec_format(text) {
        let n = text.len() as int;
        if f.selector.len() > 0 {
            let p = n - 1 - f.selector.len();
            assert(f.selector == text.subrange(p, n - 1));
            assert(selector_end(text, p) == n - 1);
            assert(f.selector[0] == text[p]);
            if f.selector.len() > 1 {
                assert(f.selector[1] == text[p + 1]);
            }
        }
    }
}

/// The characters of `s` from `from` to `to`.
fn slice_chars(s: &Vec<char>, from: usize, to: usize) -> (r: Vec<char>)
    requires
        from <= to <= s.len(),
    ensures
        r@ == s@.subrange(from as int, to as int),
{
    let mut out: Vec<char> = Vec::new();
    let mut i: usize = from;
    while i < to
        invariant
            from <= i <= to <= s.len(),
            out@ == s@.subrange(from as int, i as int),
        decreases to - i,
    {
        out.push(s[i]);
        i += 1;
    }
    out
}

/// The placeholders of a format string, resolved, in the order in which they
/// stand in it.
pub fn resolve(s: &str) -> (r: Vec<Slot>)
    ensures
        r@ == slots(s@),
{
    let chars = chars_of(s);
    let spans = placeholder_spans(&chars);
    let ghost texts = placeholder_texts(s@);
    let mut out: Vec<Slot> = Vec::new();
    let mut next: usize = 0;
    let mut k: usize = 0;
    proof {
        assert(spans_of(spans@).len() == spans.len());
    }
    while k < spans.len()
        invariant
            k <= spans.len(),
            chars@ == s@,
            texts == placeholder_texts(s@),
            texts.len() == spans.len(),
            spans_of(spans@) == scan(s@),
            forall|j: int|
                0 <= j < spans.len() ==> (#[trigger] spans[j]).0 + 2 <= spans[j].1 <= chars.len(),
            next == implicit_before(texts, k as int),
            out.len() == k,
            forall|j: int| 0 <= j < k ==> #[trigger] out[j] == slots(s@)[j],
        decreases spans.len() - k,
    {
        let (a, b) = spans[k];
        proof {
            assert(spans_of(spans@)[k as int] == (a as int, b as int));
            assert(texts[k as int] == s@.subrange(a as int, b as int));
            lemma_implicit_before(texts, k as int);
            lemma_selector_is_known(texts[k as int]);
        }
        let text = slice_chars(&chars, a, b);
        let index = parse_index(&text);
        let behavior = match parse_format(&text) {
            Some((_, p)) => match Behavior::from_selector_chars(&text, p, text.len() - 1) {
                Some(b) => b,
                None => Behavior::Display,
            },
            None => Behavior::Display,
        };
        let position = match index {
            Some(n) => n,
            None => {
                next += 1;
                next - 1
            },
        };
        out.push(Slot { position, behavior });
        k += 1;
    }
    proof {
        assert(out@ =~= slots(s@));
    }
    out
}

impl Placeholder {
    /// Parses the placeholders from a given formatting string: one for each
    /// occurrence, in the order of the text, with the position of the
    /// argument it takes and the name of the trait that renders it.
    pub fn parse_fmt_string(s: &str) -> (r: Vec<Placeholder>)
        ensures
            r.len() == slots(s@).len(),
            forall|k: int|
                0 <= k < r.len() ==> (#[trigger] r[k]).position == slots(s@)[k].position
                    && r[k].trait_name@ == slots(s@)[k].behavior.spec_trait_name(),
    {
        let found = resolve(s);
        let mut out: Vec<Placeholder> = Vec::new();
        let mut k: usize = 0;
        while k < found.len()
            invariant
                k <= found.len(),
                found@ == slots(s@),
                out.len() == k,
                forall|j: int|
                    0 <= j < k ==> (#[trigger] out[j]).position == slots(s@)[j].position
                        && out[j].trait_name@ == slots(s@)[j].behavior.spec_trait_name(),
            decreases found.len() - k,
        {
            let slot = found[k];
            out.push(
                Placeholder { position: slot.position, trait_name: slot.behavior.trait_name() },
            );
            k += 1;
        }
        out
    }
}

} // verus!
