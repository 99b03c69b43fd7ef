//! The formatting behaviours that an implementation can be derived for.

use crate::text::{chars_of, str_eq};
use vstd::prelude::*;

verus! {

/// One of the nine formatting protocols of `core::fmt`.
#[derive(Clone, Copy, Debug, PartialEq, Eq, Hash, Structural)]
pub enum Behavior {
    Display,
    Debug,
    Binary,
    Octal,
    LowerHex,
    UpperHex,
    LowerExp,
    UpperExp,
    Pointer,
}

/// The suffix that a requested name may carry, any number of times.
pub open spec fn custom_suffix() -> Seq<char> {
    seq!['C', 'u', 's', 't', 'o', 'm']
}

/// Whether the text ends in `Custom`.
pub open spec fn ends_in_custom(s: Seq<char>) -> bool {
    s.len() >= 6 && s.subrange(s.len() - 6, s.len() as int) == custom_suffix()
}

/// The text without the `Custom` suffixes at its end.
pub open spec fn strip_custom(s: Seq<char>) -> Seq<char>
    decreases s.len(),
{
    if ends_in_custom(s) {
        strip_custom(s.subrange(0, s.len() - 6))
    } else {
        s
    }
}

impl Behavior {
    /// The name of the trait in `core::fmt`.
    pub open spec fn spec_trait_name(self) -> Seq<char> {
        match self {
            Behavior::Display => "Display"@,
            Behavior::Debug => "Debug"@,
            Behavior::Binary => "Binary"@,
            Behavior::Octal => "Octal"@,
            Behavior::LowerHex => "LowerHex"@,
            Behavior::UpperHex => "UpperHex"@,
            Behavior::LowerExp => "LowerExp"@,
            Behavior::UpperExp => "UpperExp"@,
            Behavior::Pointer => "Pointer"@,
        }
    }

    /// The key of the attribute that holds a directive for this behaviour.
    pub open spec fn spec_attr_key(self) -> Seq<char> {
        match self {
            Behavior::Display => "display"@,
            Behavior::Debug => "debug"@,
            Behavior::Binary => "binary"@,
            Behavior::Octal => "octal"@,
            Behavior::LowerHex => "lower_hex"@,
            Behavior::UpperHex => "upper_hex"@,
            Behavior::LowerExp => "lower_exp"@,
            Behavior::UpperExp => "upper_exp"@,
            Behavior::Pointer => "pointer"@,
        }
    }

    /// The full path of the trait.
    pub open spec fn spec_trait_path(self) -> Seq<char> {
        match self {
            Behavior::Display => "::core::fmt::Display"@,
            Behavior::Debug => "::core::fmt::Debug"@,
            Behavior::Binary => "::core::fmt::Binary"@,
            Behavior::Octal => "::core::fmt::Octal"@,
            Behavior::LowerHex => "::core::fmt::LowerHex"@,
            Behavior::UpperHex => "::core::fmt::UpperHex"@,
            Behavior::LowerExp => "::core::fmt::LowerExp"@,
            Behavior::UpperExp => "::core::fmt::UpperExp"@,
            Behavior::Pointer => "::core::fmt::Pointer"@,
        }
    }

    /// The behaviour whose trait has exactly this name.
    pub open spec fn spec_from_trait_name(name: Seq<char>) -> Option<Behavior> {
        if name == "Display"@ {
            Some(Behavior::Display)
        } else if name == "Debug"@ {
            Some(Behavior::Debug)
        } else if name == "Binary"@ {
            Some(Behavior::Binary)
        } else if name == "Octal"@ {
            Some(Behavior::Octal)
        } else if name == "LowerHex"@ {
            Some(Behavior::LowerHex)
        } else if name == "UpperHex"@ {
            Some(Behavior::UpperHex)
        } else if name == "LowerExp"@ {
            Some(Behavior::LowerExp)
        } else if name == "UpperExp"@ {
            Some(Behavior::UpperExp)
        } else if name == "Pointer"@ {
            Some(Behavior::Pointer)
        } else {
            None
        }
    }

    /// The behaviour that a requested name stands for: the name of its trait,
    /// with or without `Custom` at its end.
    pub open spec fn spec_requested(name: Seq<char>) -> Option<Behavior> {
        Self::spec_from_trait_name(strip_custom(name))
    }

    /// The behaviour that a type selector asks for. No selector asks for
    /// `Display`; `?`, `x?` and `X?` ask for `Debug`.
    pub open spec fn spec_from_selector(sel: Seq<char>) -> Option<Behavior> {
        if sel.len() == 0 {
            Some(Behavior::Display)
        } else if sel.len() == 1 {
            if sel[0] == '?' {
                Some(Behavior::Debug)
            } else if sel[0] == 'o' {
                Some(Behavior::Octal)
            } else if sel[0] == 'x' {
                Some(Behavior::LowerHex)
            } else if sel[0] == 'X' {
                Some(Behavior::UpperHex)
            } else if sel[0] == 'p' {
                Some(Behavior::Pointer)
            } else if sel[0] == 'b' {
                Some(Behavior::Binary)
            } else if sel[0] == 'e' {
                Some(Behavior::LowerExp)
            } else if sel[0] == 'E' {
                Some(Behavior::UpperExp)
            } else {
                None
            }
        } else if sel.len() == 2 && (sel[0] == 'x' || sel[0] == 'X') && sel[1] == '?' {
            Some(Behavior::Debug)
        } else {
            None
        }
    }

    /// The name of the trait in `core::fmt`.
    pub fn trait_name(self) -> (r: &'static str)
        ensures
            r@ == self.spec_trait_name(),
    {
        match self {
            Behavior::Display => "Display",
            Behavior::Debug => "Debug",
            Behavior::Binary => "Binary",
            Behavior::Octal => "Octal",
            Behavior::LowerHex => "LowerHex",
            Behavior::UpperHex => "UpperHex",
            Behavior::LowerExp => "LowerExp",
            Behavior::UpperExp => "UpperExp",
            Behavior::Pointer => "Pointer",
        }
    }

    /// The key of the attribute that holds a directive for this behaviour.
    pub fn attr_key(self) -> (r: &'static str)
        ensures
            r@ == self.spec_attr_key(),
    {
        match self {
            Behavior::Display => "display",
            Behavior::Debug => "debug",
            Behavior::Binary => "binary",
            Behavior::Octal => "octal",
            Behavior::LowerHex => "lower_hex",
            Behavior::UpperHex => "upper_hex",
            Behavior::LowerExp => "lower_exp",
            Behavior::UpperExp => "upper_exp",
            Behavior::Pointer => "pointer",
        }
    }

    /// The full path of the trait.
    pub fn trait_path(self) -> (r: &'static str)
        ensures
            r@ == self.spec_trait_path(),
    {
        match self {
            Behavior::Display => "::core::fmt::Display",
            Behavior::Debug => "::core::fmt::Debug",
            Behavior::Binary => "::core::fmt::Binary",
            Behavior::Octal => "::core::fmt::Octal",
            Behavior::LowerHex => "::core::fmt::LowerHex",
            Behavior::UpperHex => "::core::fmt::UpperHex",
            Behavior::LowerExp => "::core::fmt::LowerExp",
            Behavior::UpperExp => "::core::fmt::UpperExp",
            Behavior::Pointer => "::core::fmt::Pointer",
        }
    }

    /// The behaviour whose trait has exactly this name.
    pub fn from_trait_name(name: &str) -> (r: Option<Behavior>)
        ensures
            r == Self::spec_from_trait_name(name@),
    {
        if str_eq(name, "Display") {
            Some(Behavior::Display)
        } else if str_eq(name, "Debug") {
            Some(Behavior::Debug)
        } else if str_eq(name, "Binary") {
            Some(Behavior::Binary)
        } else if str_eq(name, "Octal") {
            Some(Behavior::Octal)
        } else if str_eq(name, "LowerHex") {
            Some(Behavior::LowerHex)
        } else if str_eq(name, "UpperHex") {
            Some(Behavior::UpperHex)
        } else if str_eq(name, "LowerExp") {
            Some(Behavior::LowerExp)
        } else if str_eq(name, "UpperExp") {
            Some(Behavior::UpperExp)
        } else if str_eq(name, "Pointer") {
            Some(Behavior::Pointer)
        } else {
            None
        }
    }

    /// The behaviour that a requested name stands for.
    pub fn requested(name: &str) -> (r: Option<Behavior>)
        ensures
            r == Self::spec_requested(name@),
    {
        let chars = chars_of(name);
        let mut end: usize = chars.len();
        proof {
            assert(name@.subrange(0, end as int) =~= name@);
        }
        while end >= 6 && chars[end - 6] == 'C' && chars[end - 5] == 'u' && chars[end - 4] == 's'
            && chars[end - 3] == 't' && chars[end - 2] == 'o' && chars[end - 1] == 'm'
            invariant
                end <= chars.len(),
                chars@ == name@,
                strip_custom(name@) == strip_custom(name@.subrange(0, end as int)),
            decreases end,
        {
            proof {
                let s = name@.subrange(0, end as int);
                assert(s.subrange(s.len() - 6, s.len() as int) =~= custom_suffix());
                assert(s.subrange(0, s.len() - 6) =~= name@.subrange(0, end - 6));
            }
            end -= 6;
        }
        proof {
            let s = name@.subrange(0, end as int);
            if s.len() >= 6 {
                let t = s.subrange(s.len() - 6, s.len() as int);
                assert(t[0] == s[end - 6] && t[1] == s[end - 5] && t[2] == s[end - 4] && t[3]
                    == s[end - 3] && t[4] == s[end - 2] && t[5] == s[end - 1]);
            }
            assert(!ends_in_custom(s));
        }
        Self::from_trait_name(name.substring_char(0, end))
    }

    /// The behaviour that the selector in `s` from `from` to `to` asks for.
    pub fn from_selector_chars(s: &Vec<char>, from: usize, to: usize) -> (r: Option<Behavior>)
        requires
            from <= to <= s.len(),
        ensures
            r == Self::spec_from_selector(s@.subrange(from as int, to as int)),
    {
        let ghost sel = s@.subrange(from as int, to as int);
        if to == from {
            Some(Behavior::Display)
        } else if to - from == 1 {
            let c = s[from];
            assert(sel[0] == c);
            if c == '?' {
                Some(Behavior::Debug)
            } else if c == 'o' {
                Some(Behavior::Octal)
            } else if c == 'x' {
                Some(Behavior::LowerHex)
            } else if c == 'X' {
                Some(Behavior::UpperHex)
            } else if c == 'p' {
                Some(Behavior::Pointer)
            } else if c == 'b' {
                Some(Behavior::Binary)
            } else if c == 'e' {
                Some(Behavior::LowerExp)
            } else if c == 'E' {
                Some(Behavior::UpperExp)
            } else {
                None
            }
        } else if to - from == 2 {
            assert(sel[0] == s@[from as int] && sel[1] == s@[from + 1]);
            if (s[from] == 'x' || s[from] == 'X') && s[from + 1] == '?' {
                Some(Behavior::Debug)
            } else {
                None
            }
        } else {
            None
        }
    }

    /// The behaviour that a type selector asks for; `None` for a text that
    /// is no selector.
    pub fn from_selector(sel: &str) -> (r: Option<Behavior>)
        ensures
            r == Self::spec_from_selector(sel@),
    {
        let chars = chars_of(sel);
        proof {
            assert(chars@.subrange(0, chars.len() as int) =~= sel@);
        }
        Self::from_selector_chars(&chars, 0, chars.len())
    }
}

} // verus!
