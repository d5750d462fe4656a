//! Access rights of a register or field, as a closed set of variants with
//! one canonical string form each.

use vstd::prelude::*;

use crate::strutil::str_eq;

verus! {

broadcast use vstd::string::group_string_axioms;

/// Defines access rights for fields on the device, though it may be
/// specified at a higher level than individual fields.
#[derive(Clone, Copy, Debug, PartialEq, Eq, Structural)]
pub enum Access {
    /// Read access is permitted. Write operations have an undefined effect.
    ReadOnly,
    /// Read and write accesses are permitted.
    ReadWrite,
    /// Read access is always permitted. Only the first write after a reset
    /// will affect the content. Following writes have an undefined effect.
    ReadWriteOnce,
    /// Read operations have undefined results. Only the first write after a
    /// reset will affect the content.
    WriteOnce,
    /// Read operations have an undefined result. Write access is permitted.
    WriteOnly,
}

impl Access {
    /// Whether the register/field is readable at least once.
    pub fn can_read(self) -> (r: bool)
        ensures
            r == (self is ReadOnly || self is ReadWrite || self is ReadWriteOnce),
    {
        match self {
            Self::ReadOnly | Self::ReadWrite | Self::ReadWriteOnce => true,
            _ => false,
        }
    }

    /// Whether the register/field is writable at least once.
    pub fn can_write(self) -> (r: bool)
        ensures
            r == !(self is ReadOnly),
    {
        match self {
            Self::ReadOnly => false,
            _ => true,
        }
    }
}

impl Default for Access {
    /// The schema's default access is read-write.
    fn default() -> (r: Self)
        ensures
            r is ReadWrite,
    {
        Self::ReadWrite
    }
}

/// The canonical string form of each access variant, as the schema's
/// published vocabulary spells it.
pub open spec fn spec_access_to_str(v: Access) -> Seq<char> {
    match v {
        Access::ReadOnly => "read-only"@,
        Access::ReadWrite => "read-write"@,
        Access::ReadWriteOnce => "read-writeOnce"@,
        Access::WriteOnce => "writeOnce"@,
        Access::WriteOnly => "write-only"@,
    }
}

/// The variant a string denotes: none for any string outside the closed
/// vocabulary.
pub open spec fn spec_access_from_str(s: Seq<char>) -> Option<Access> {
    if s == "read-only"@ {
        Some(Access::ReadOnly)
    } else if s == "read-write"@ {
        Some(Access::ReadWrite)
    } else if s == "read-writeOnce"@ {
        Some(Access::ReadWriteOnce)
    } else if s == "write-only"@ {
        Some(Access::WriteOnly)
    } else if s == "writeOnce"@ {
        Some(Access::WriteOnce)
    } else {
        None
    }
}

impl Access {
    /// The canonical string form of this variant.
    pub fn to_str(self) -> (r: &'static str)
        ensures
            r@ == spec_access_to_str(self),
    {
        match self {
            Access::ReadOnly => "read-only",
            Access::ReadWrite => "read-write",
            Access::ReadWriteOnce => "read-writeOnce",
            Access::WriteOnce => "writeOnce",
            Access::WriteOnly => "write-only",
        }
    }

    /// The variant whose canonical form is `s`, if any: unknown strings
    /// are ordinary validation input and yield no variant.
    pub fn from_str(s: &str) -> (r: Option<Self>)
        ensures
            r == spec_access_from_str(s@),
    {
        if str_eq(s, "read-only") {
            Some(Access::ReadOnly)
        } else if str_eq(s, "read-write") {
            Some(Access::ReadWrite)
        } else if str_eq(s, "read-writeOnce") {
            Some(Access::ReadWriteOnce)
        } else if str_eq(s, "write-only") {
            Some(Access::WriteOnly)
        } else if str_eq(s, "writeOnce") {
            Some(Access::WriteOnce)
        } else {
            None
        }
    }
}

/// Decoding the canonical form of any access variant yields that variant
/// back: the codec round-trips over the whole closed set.
pub proof fn lemma_access_round_trip(v: Access)
    ensures
        spec_access_from_str(spec_access_to_str(v)) == Some(v),
{
    lemma_access_strings_differ();
}

/// Length and leading-character facts that tell the five canonical
/// strings apart.
proof fn lemma_access_strings_differ()
    ensures
        "read-only"@.len() == 9,
        "read-write"@.len() == 10,
        "read-writeOnce"@.len() == 14,
        "write-only"@.len() == 10,
        "writeOnce"@.len() == 9,
        "read-only"@[0] == 'r',
        "read-write"@[0] == 'r',
        "read-writeOnce"@[0] == 'r',
        "write-only"@[0] == 'w',
        "writeOnce"@[0] == 'w',
{
    reveal_strlit("read-only");
    reveal_strlit("read-write");
    reveal_strlit("read-writeOnce");
    reveal_strlit("write-only");
    reveal_strlit("writeOnce");
}

/// Distinct access variants never share a canonical string form.
pub proof fn lemma_access_to_str_injective(a: Access, b: Access)
    requires
        spec_access_to_str(a) == spec_access_to_str(b),
    ensures
        a == b,
{
    lemma_access_strings_differ();
}

} // verus!
