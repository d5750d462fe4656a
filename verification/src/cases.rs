//! Identifier case styles: a named casing transform applied to a name
//! before it is written out. A name with no configured style passes
//! through unchanged.

use vstd::prelude::*;

verus! {

/// A casing transform for identifiers: force ASCII letters to upper or to
/// lower case. Characters outside the ASCII alphabet are never altered.
#[derive(Clone, Copy, Debug, PartialEq, Eq, Structural)]
pub enum CaseStyle {
    /// Every ASCII lowercase letter becomes its uppercase counterpart.
    Upper,
    /// Every ASCII uppercase letter becomes its lowercase counterpart.
    Lower,
}

/// The ASCII uppercase alphabet, in order.
pub open spec fn upper_alphabet() -> Seq<char> {
    "ABCDEFGHIJKLMNOPQRSTUVWXYZ"@
}

/// The ASCII lowercase alphabet, in order.
pub open spec fn lower_alphabet() -> Seq<char> {
    "abcdefghijklmnopqrstuvwxyz"@
}

/// Whether `c` is an ASCII lowercase letter.
pub open spec fn is_lower_char(c: char) -> bool {
    97 <= (c as u32) && (c as u32) <= 122
}

/// Whether `c` is an ASCII uppercase letter.
pub open spec fn is_upper_char(c: char) -> bool {
    65 <= (c as u32) && (c as u32) <= 90
}

/// `c` with an ASCII lowercase letter raised to upper case; any other
/// character unchanged.
pub open spec fn upper_char(c: char) -> char {
    if is_lower_char(c) {
        upper_alphabet()[(c as u32) as int - 97]
    } else {
        c
    }
}

/// `c` with an ASCII uppercase letter dropped to lower case; any other
/// character unchanged.
pub open spec fn lower_char(c: char) -> char {
    if is_upper_char(c) {
        lower_alphabet()[(c as u32) as int - 65]
    } else {
        c
    }
}

/// A character sequence transformed character by character.
pub open spec fn upper_seq(s: Seq<char>) -> Seq<char> {
    s.map_values(|c: char| upper_char(c))
}

/// A character sequence transformed character by character.
pub open spec fn lower_seq(s: Seq<char>) -> Seq<char> {
    s.map_values(|c: char| lower_char(c))
}

/// The result of applying a case style to a name: no style leaves the
/// name untouched.
pub open spec fn spec_change_case(s: Seq<char>, style: Option<CaseStyle>) -> Seq<char> {
    match style {
        None => s,
        Some(CaseStyle::Upper) => upper_seq(s),
        Some(CaseStyle::Lower) => lower_seq(s),
    }
}

/// Facts about the two alphabet literals: their length, their characters'
/// classes, and that each maps onto the other position by position.
proof fn lemma_alphabets()
    ensures
        upper_alphabet().len() == 26,
        lower_alphabet().len() == 26,
        forall|k: int|
            0 <= k < 26 ==> (#[trigger] upper_alphabet()[k] as u32) == 65 + k,
        forall|k: int|
            0 <= k < 26 ==> (#[trigger] lower_alphabet()[k] as u32) == 97 + k,
{
    reveal_strlit("ABCDEFGHIJKLMNOPQRSTUVWXYZ");
    reveal_strlit("abcdefghijklmnopqrstuvwxyz");
}

/// Applies a case style to a name. Idempotent: feeding the result back in
/// under the same style returns it unchanged.
pub fn change_case(name: &str, style: Option<CaseStyle>) -> (r: String)
    ensures
        r@ == spec_change_case(name@, style),
{
    match style {
        None => String::from_str(name),
        Some(CaseStyle::Upper) => to_upper(name),
        Some(CaseStyle::Lower) => to_lower(name),
    }
}

fn to_upper(name: &str) -> (r: String)
    ensures
        r@ == upper_seq(name@),
{
    let up = "ABCDEFGHIJKLMNOPQRSTUVWXYZ";
    proof {
        lemma_alphabets();
        assert(vstd::string::is_ascii(up)) by {
            reveal_strlit("ABCDEFGHIJKLMNOPQRSTUVWXYZ");
        }
    }
    let n = name.unicode_len();
    let mut out = String::new();
    let mut i: usize = 0;
    proof {
        assert(name@.take(0) =~= Seq::<char>::empty());
        assert(out@ =~= upper_seq(name@.take(0)));
    }
    while i < n
        invariant
            i <= n,
            n == name@.len(),
            up@ == upper_alphabet(),
            up@.len() == 26,
            vstd::string::is_ascii(up),
            forall|k: int|
                0 <= k < 26 ==> (#[trigger] upper_alphabet()[k] as u32) == 65 + k,
            out@ == upper_seq(name@.take(i as int)),
        decreases n - i,
    {
        let c = name.get_char(i);
        if 97 <= (c as u32) && (c as u32) <= 122 {
            let k = ((c as u32) - 97) as usize;
            let piece = up.substring_ascii(k, k + 1);
            proof {
                assert(piece@ =~= seq![upper_char(c)]);
            }
            out.append(piece);
        } else {
            let piece = name.substring_char(i, i + 1);
            proof {
                assert(piece@ =~= seq![upper_char(c)]);
            }
            out.append(piece);
        }
        proof {
            assert(out@ =~= upper_seq(name@.take(i + 1)));
        }
        i += 1;
    }
    proof {
        assert(name@.take(n as int) =~= name@);
    }
    out
}

fn to_lower(name: &str) -> (r: String)
    ensures
        r@ == lower_seq(name@),
{
    let low = "abcdefghijklmnopqrstuvwxyz";
    proof {
        lemma_alphabets();
        assert(vstd::string::is_ascii(low)) by {
            reveal_strlit("abcdefghijklmnopqrstuvwxyz");
        }
    }
    let n = name.unicode_len();
    let mut out = String::new();
    let mut i: usize = 0;
    proof {
        assert(name@.take(0) =~= Seq::<char>::empty());
        assert(out@ =~= lower_seq(name@.take(0)));
    }
    while i < n
        invariant
            i <= n,
            n == name@.len(),
            low@ == lower_alphabet(),
            low@.len() == 26,
            vstd::string::is_ascii(low),
            forall|k: int|
                0 <= k < 26 ==> (#[trigger] lower_alphabet()[k] as u32) == 97 + k,
            out@ == lower_seq(name@.take(i as int)),
        decreases n - i,
    {
        let c = name.get_char(i);
        if 65 <= (c as u32) && (c as u32) <= 90 {
            let k = ((c as u32) - 65) as usize;
            let piece = low.substring_ascii(k, k + 1);
            proof {
                assert(piece@ =~= seq![lower_char(c)]);
            }
            out.append(piece);
        } else {
            let piece = name.substring_char(i, i + 1);
            proof {
                assert(piece@ =~= seq![lower_char(c)]);
            }
            out.append(piece);
        }
        proof {
            assert(out@ =~= lower_seq(name@.take(i + 1)));
        }
        i += 1;
    }
    proof {
        assert(name@.take(n as int) =~= name@);
    }
    out
}

/// Applying a case style twice gives what applying it once gives: the
/// converter is idempotent, so already-correctly-cased input passes
/// through unchanged.
pub proof fn lemma_change_case_idempotent(s: Seq<char>, style: Option<CaseStyle>)
    ensures
        spec_change_case(spec_change_case(s, style), style) == spec_change_case(s, style),
{
    lemma_alphabets();
    match style {
        None => {},
        Some(CaseStyle::Upper) => {
            assert(upper_seq(upper_seq(s)) =~= upper_seq(s));
        },
        Some(CaseStyle::Lower) => {
            assert(lower_seq(lower_seq(s)) =~= lower_seq(s));
        },
    }
}

} // verus!
