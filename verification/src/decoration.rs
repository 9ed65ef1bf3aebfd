//! The leading underscore that the C compiler puts before function names.
use crate::bytes::{join, UNDERSCORE};
use vstd::prelude::*;
use vstd::slice::slice_to_vec;

verus! {

/// What the first byte of a function name says of its decoration.
#[derive(Clone, Copy, PartialEq, Eq, Debug, Structural)]
pub enum NameClass {
    /// `?` or `@`: mangled C++ or fastcall, which take no underscore.
    Mangled,
    /// `_`: the underscore is there already.
    Underscored,
    /// Anything else, the empty name too: cdecl or stdcall, stripped of its underscore.
    Bare,
}

/// The class of a function name.
pub open spec fn name_class(name: Seq<u8>) -> NameClass {
    if name.len() == 0 {
        NameClass::Bare
    } else if name[0] == 0x3f || name[0] == 0x40 {
        NameClass::Mangled
    } else if name[0] == UNDERSCORE {
        NameClass::Underscored
    } else {
        NameClass::Bare
    }
}

/// The name that an object file carries for the function that the debug
/// information calls `name`.
pub open spec fn decorated(name: Seq<u8>) -> Seq<u8> {
    if name_class(name) == NameClass::Bare {
        seq![UNDERSCORE] + name
    } else {
        name
    }
}

/// Tells the class of a function name.
pub fn classify_function_name(name: &[u8]) -> (r: NameClass)
    ensures
        r == name_class(name@),
{
    if name.len() == 0 {
        return NameClass::Bare;
    }
    match name[0] {
        0x3f | 0x40 => NameClass::Mangled,
        0x5f => NameClass::Underscored,
        _ => NameClass::Bare,
    }
}

/// Puts the compiler's leading underscore before a function name, unless the
/// name carries one already or is of a kind that takes none.
///
/// | First byte | Verdict                            | Example           |
/// |------------|------------------------------------|-------------------|
/// | `?`        | mangled C++, left alone            | `?foo@@YAXXZ`     |
/// | `@`        | fastcall, left alone               | `@foo@4`          |
/// | `_`        | already decorated, left alone      | `_chkstk`         |
/// | other      | cdecl or stdcall, gets its `_`     | `foo` to `_foo`   |
pub fn coff_decorate_function_name(name: &[u8]) -> (r: Vec<u8>)
    ensures
        r@ == decorated(name@),
{
    match classify_function_name(name) {
        NameClass::Bare => {
            let underscore: [u8; 1] = [UNDERSCORE];
            let r = join(&underscore, name);
            assert(r@ =~= seq![UNDERSCORE] + name@);
            r
        },
        _ => slice_to_vec(name),
    }
}

/// How many function names were decorated, and how many were left alone for
/// either reason. Each count starts over at zero behind the largest number.
#[derive(Clone, Copy, PartialEq, Eq, Debug, Structural)]
pub struct DecorationTally {
    /// Names that got their underscore.
    pub decorated: usize,
    /// Names that had one already.
    pub underscored: usize,
    /// Names that take none.
    pub mangled: usize,
}

/// The number behind `n`, zero behind the largest.
pub open spec fn next_count(n: usize) -> usize {
    if n == usize::MAX {
        0
    } else {
        (n + 1) as usize
    }
}

impl DecorationTally {
    /// No name at all.
    pub open spec fn zero() -> DecorationTally {
        DecorationTally { decorated: 0, underscored: 0, mangled: 0 }
    }

    /// The tally with one more name in it.
    pub open spec fn with(self, name: Seq<u8>) -> DecorationTally {
        match name_class(name) {
            NameClass::Bare => DecorationTally { decorated: next_count(self.decorated), ..self },
            NameClass::Underscored => DecorationTally {
                underscored: next_count(self.underscored),
                ..self
            },
            NameClass::Mangled => DecorationTally { mangled: next_count(self.mangled), ..self },
        }
    }

    /// The names of two tallies together.
    pub open spec fn plus(self, other: DecorationTally) -> DecorationTally {
        DecorationTally {
            decorated: self.decorated.wrapping_add(other.decorated),
            underscored: self.underscored.wrapping_add(other.underscored),
            mangled: self.mangled.wrapping_add(other.mangled),
        }
    }

    /// Returns the tally of the names of both.
    pub fn merge(&self, other: &DecorationTally) -> (r: DecorationTally)
        ensures
            r == self.plus(*other),
    {
        DecorationTally {
            decorated: self.decorated.wrapping_add(other.decorated),
            underscored: self.underscored.wrapping_add(other.underscored),
            mangled: self.mangled.wrapping_add(other.mangled),
        }
    }

    /// Starts a tally.
    pub fn new() -> (r: DecorationTally)
        ensures
            r == DecorationTally::zero(),
    {
        DecorationTally { decorated: 0, underscored: 0, mangled: 0 }
    }

    /// Decorates a function name, and counts it.
    pub fn decorate(&mut self, name: &[u8]) -> (r: Vec<u8>)
        ensures
            r@ == decorated(name@),
            *final(self) == old(self).with(name@),
    {
        self.record(name);
        coff_decorate_function_name(name)
    }

    /// Counts one more name.
    pub fn record(&mut self, name: &[u8])
        ensures
            *final(self) == old(self).with(name@),
    {
        match classify_function_name(name) {
            NameClass::Bare => {
                self.decorated = self.decorated.wrapping_add(1);
            },
            NameClass::Underscored => {
                self.underscored = self.underscored.wrapping_add(1);
            },
            NameClass::Mangled => {
                self.mangled = self.mangled.wrapping_add(1);
            },
        }
    }
}

/// Whether a decoration was needed depends on the first byte alone: names that
/// start with the same byte are all decorated or all left alone.
pub proof fn law_class_is_pure_in_first_byte(a: Seq<u8>, b: Seq<u8>)
    requires
        a.len() > 0,
        b.len() > 0,
        a[0] == b[0],
    ensures
        name_class(a) == name_class(b),
        decorated(a) == a <==> decorated(b) == b,
{
    if name_class(a) == NameClass::Bare {
        assert(decorated(a).len() == a.len() + 1);
        assert(decorated(b).len() == b.len() + 1);
    }
}

/// A decorated name is never decorated again.
pub proof fn law_decoration_is_idempotent(name: Seq<u8>)
    ensures
        decorated(decorated(name)) == decorated(name),
{
}

/// The stripped and the unstripped form of one cdecl or stdcall name come out
/// as the same name, and it has exactly one leading underscore more than the
/// stripped form, which has none.
pub proof fn law_stripped_and_unstripped_forms_agree(stripped: Seq<u8>)
    requires
        name_class(stripped) == NameClass::Bare,
    ensures
        decorated(stripped) == decorated(seq![UNDERSCORE] + stripped),
        decorated(stripped)[0] == UNDERSCORE,
        decorated(stripped).skip(1) == stripped,
        stripped.len() > 0 ==> decorated(stripped)[1] != UNDERSCORE,
{
    assert(decorated(stripped).skip(1) =~= stripped);
}

/// Every name that comes out starts with `_`, `?` or `@`.
pub proof fn law_decorated_names_start_as_symbols_do(name: Seq<u8>)
    ensures
        decorated(name).len() > 0,
        name_class(decorated(name)) != NameClass::Bare,
{
}

} // verus!
