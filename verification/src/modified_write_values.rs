//! The side effect of a write on a register or field, as a closed set of
//! variants with one canonical string form each.

use vstd::prelude::*;

use crate::strutil::str_eq;

verus! {

broadcast use vstd::string::group_string_axioms;

/// Describes the manipulation of data written to a register or field. If
/// not specified, the value written to the field is the value stored in
/// the field.
#[derive(Clone, Copy, Debug, PartialEq, Eq, Structural)]
pub enum ModifiedWriteValues {
    /// A written one bit clears the corresponding bit of the field.
    OneToClear,
    /// A written one bit sets the corresponding bit of the field.
    OneToSet,
    /// A written one bit toggles the corresponding bit of the field.
    OneToToggle,
    /// A written zero bit clears the corresponding bit of the field.
    ZeroToClear,
    /// A written zero bit sets the corresponding bit of the field.
    ZeroToSet,
    /// A written zero bit toggles the corresponding bit of the field.
    ZeroToToggle,
    /// After a write all bits of the field are cleared.
    Clear,
    /// After a write all bits of the field are set.
    SetAll,
    /// After a write all bits of the field may be modified (the default).
    Modify,
}

impl Default for ModifiedWriteValues {
    /// The schema's default write semantics is modify.
    fn default() -> (r: Self)
        ensures
            r is Modify,
    {
        Self::Modify
    }
}

/// The canonical string form of each variant, as the schema's published
/// vocabulary spells it.
pub open spec fn spec_mwv_to_str(v: ModifiedWriteValues) -> Seq<char> {
    match v {
        ModifiedWriteValues::OneToClear => "oneToClear"@,
        ModifiedWriteValues::OneToSet => "oneToSet"@,
        ModifiedWriteValues::OneToToggle => "oneToToggle"@,
        ModifiedWriteValues::ZeroToClear => "zeroToClear"@,
        ModifiedWriteValues::ZeroToSet => "zeroToSet"@,
        ModifiedWriteValues::ZeroToToggle => "zeroToToggle"@,
        ModifiedWriteValues::Clear => "clear"@,
        ModifiedWriteValues::SetAll => "set"@,
        ModifiedWriteValues::Modify => "modify"@,
    }
}

/// The variant a string denotes: none for any string outside the closed
/// vocabulary.
pub open spec fn spec_mwv_from_str(s: Seq<char>) -> Option<ModifiedWriteValues> {
    if s == "oneToClear"@ {
        Some(ModifiedWriteValues::OneToClear)
    } else if s == "oneToSet"@ {
        Some(ModifiedWriteValues::OneToSet)
    } else if s == "oneToToggle"@ {
        Some(ModifiedWriteValues::OneToToggle)
    } else if s == "zeroToClear"@ {
        Some(ModifiedWriteValues::ZeroToClear)
    } else if s == "zeroToSet"@ {
        Some(ModifiedWriteValues::ZeroToSet)
    } else if s == "zeroToToggle"@ {
        Some(ModifiedWriteValues::ZeroToToggle)
    } else if s == "clear"@ {
        Some(ModifiedWriteValues::Clear)
    } else if s == "set"@ {
        Some(ModifiedWriteValues::SetAll)
    } else if s == "modify"@ {
        Some(ModifiedWriteValues::Modify)
    } else {
        None
    }
}

impl ModifiedWriteValues {
    /// The canonical string form of this variant.
    pub fn to_str(self) -> (r: &'static str)
        ensures
            r@ == spec_mwv_to_str(self),
    {
        match self {
            ModifiedWriteValues::OneToClear => "oneToClear",
            ModifiedWriteValues::OneToSet => "oneToSet",
            ModifiedWriteValues::OneToToggle => "oneToToggle",
            ModifiedWriteValues::ZeroToClear => "zeroToClear",
            ModifiedWriteValues::ZeroToSet => "zeroToSet",
            ModifiedWriteValues::ZeroToToggle => "zeroToToggle",
            ModifiedWriteValues::Clear => "clear",
            ModifiedWriteValues::SetAll => "set",
            ModifiedWriteValues::Modify => "modify",
        }
    }

    /// The variant whose canonical form is `s`, if any: unknown strings
    /// are ordinary validation input and yield no variant.
    pub fn from_str(s: &str) -> (r: Option<Self>)
        ensures
            r == spec_mwv_from_str(s@),
    {
        if str_eq(s, "oneToClear") {
            Some(ModifiedWriteValues::OneToClear)
        } else if str_eq(s, "oneToSet") {
            Some(ModifiedWriteValues::OneToSet)
        } else if str_eq(s, "oneToToggle") {
            Some(ModifiedWriteValues::OneToToggle)
        } else if str_eq(s, "zeroToClear") {
            Some(ModifiedWriteValues::ZeroToClear)
        } else if str_eq(s, "zeroToSet") {
            Some(ModifiedWriteValues::ZeroToSet)
        } else if str_eq(s, "zeroToToggle") {
            Some(ModifiedWriteValues::ZeroToToggle)
        } else if str_eq(s, "clear") {
            Some(ModifiedWriteValues::Clear)
        } else if str_eq(s, "set") {
            Some(ModifiedWriteValues::SetAll)
        } else if str_eq(s, "modify") {
            Some(ModifiedWriteValues::Modify)
        } else {
            None
        }
    }
}

/// Decoding the canonical form of any variant yields that variant back:
/// the codec round-trips over the whole closed set.
pub proof fn lemma_mwv_round_trip(v: ModifiedWriteValues)
    ensures
        spec_mwv_from_str(spec_mwv_to_str(v)) == Some(v),
{
    lemma_mwv_strings_differ();
}

/// Length and leading-character facts that tell the nine canonical
/// strings apart.
proof fn lemma_mwv_strings_differ()
    ensures
        "oneToClear"@.len() == 10,
        "oneToSet"@.len() == 8,
        "oneToToggle"@.len() == 11,
        "zeroToClear"@.len() == 11,
        "zeroToSet"@.len() == 9,
        "zeroToToggle"@.len() == 12,
        "clear"@.len() == 5,
        "set"@.len() == 3,
        "modify"@.len() == 6,
        "oneToClear"@[0] == 'o',
        "oneToSet"@[0] == 'o',
        "oneToToggle"@[0] == 'o',
        "zeroToClear"@[0] == 'z',
        "zeroToSet"@[0] == 'z',
        "zeroToToggle"@[0] == 'z',
        "clear"@[0] == 'c',
        "set"@[0] == 's',
        "modify"@[0] == 'm',
{
    reveal_strlit("oneToClear");
    reveal_strlit("oneToSet");
    reveal_strlit("oneToToggle");
    reveal_strlit("zeroToClear");
    reveal_strlit("zeroToSet");
    reveal_strlit("zeroToToggle");
    reveal_strlit("clear");
    reveal_strlit("set");
    reveal_strlit("modify");
}

/// Distinct variants never share a canonical string form.
pub proof fn lemma_mwv_to_str_injective(a: ModifiedWriteValues, b: ModifiedWriteValues)
    requires
        spec_mwv_to_str(a) == spec_mwv_to_str(b),
    ensures
        a == b,
{
    lemma_mwv_strings_differ();
}

} // verus!
