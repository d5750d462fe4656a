//! Numeric formatting: renders an unsigned value in a configured textual
//! base, and parses such a rendering back. When no format is configured
//! the value is rendered in decimal.

use vstd::prelude::*;

verus! {

/// A textual rendering convention for an unsigned integer.
#[derive(Clone, Copy, Debug, PartialEq, Eq, Structural)]
pub enum NumberFormat {
    /// Plain decimal, no prefix.
    Dec,
    /// Hexadecimal with a `0x` prefix and lowercase digits.
    LowerHex,
    /// Hexadecimal with a `0x` prefix and uppercase digits.
    UpperHex,
}

/// The decimal digit alphabet, in order of value.
pub open spec fn dec_digits() -> Seq<char> {
    "0123456789"@
}

/// The lowercase hexadecimal digit alphabet, in order of value.
pub open spec fn hex_lower_digits() -> Seq<char> {
    "0123456789abcdef"@
}

/// The uppercase hexadecimal digit alphabet, in order of value.
pub open spec fn hex_upper_digits() -> Seq<char> {
    "0123456789ABCDEF"@
}

/// Whether a digit alphabet holds pairwise distinct characters.
pub open spec fn digits_unique(digs: Seq<char>) -> bool {
    forall|i: int, j: int|
        0 <= i < digs.len() && 0 <= j < digs.len() && i != j ==> #[trigger] digs[i]
            != #[trigger] digs[j]
}

/// The digits of `v` in the given base, most significant first, written
/// with the given digit alphabet. A base under two yields nothing.
pub open spec fn spec_digits(v: nat, base: nat, digs: Seq<char>) -> Seq<char>
    decreases v,
    via spec_digits_decreases
{
    if base < 2 {
        Seq::empty()
    } else if v < base {
        seq![digs[v as int]]
    } else {
        spec_digits(v / base, base, digs) + seq![digs[(v % base) as int]]
    }
}

#[via_fn]
proof fn spec_digits_decreases(v: nat, base: nat, digs: Seq<char>) {
    if !(base < 2) && !(v < base) {
        vstd::arithmetic::div_mod::lemma_div_is_strictly_smaller(v as int, base as int);
    }
}

/// The rendering of `v` under one style.
pub open spec fn spec_format(v: nat, style: NumberFormat) -> Seq<char> {
    match style {
        NumberFormat::Dec => spec_digits(v, 10, dec_digits()),
        NumberFormat::LowerHex => "0x"@ + spec_digits(v, 16, hex_lower_digits()),
        NumberFormat::UpperHex => "0x"@ + spec_digits(v, 16, hex_upper_digits()),
    }
}

/// The rendering of `v` under an optional style: no configured style
/// renders in decimal.
pub open spec fn spec_format_number(v: nat, style: Option<NumberFormat>) -> Seq<char> {
    match style {
        None => spec_format(v, NumberFormat::Dec),
        Some(st) => spec_format(v, st),
    }
}

/// The position of `c` in a digit alphabet, if it occurs there.
pub open spec fn digit_index(digs: Seq<char>, c: char) -> Option<int> {
    if exists|i: int| 0 <= i < digs.len() && #[trigger] digs[i] == c {
        Some(choose|i: int| 0 <= i < digs.len() && #[trigger] digs[i] == c)
    } else {
        None
    }
}

/// The value of a digit string under the given base and digit alphabet:
/// none for an empty string or for any character outside the alphabet.
pub open spec fn spec_parse(s: Seq<char>, base: nat, digs: Seq<char>) -> Option<nat>
    decreases s.len(),
{
    if s.len() == 0 {
        None
    } else if s.len() == 1 {
        match digit_index(digs, s[0]) {
            Some(d) => Some(d as nat),
            None => None,
        }
    } else {
        match (spec_parse(s.drop_last(), base, digs), digit_index(digs, s.last())) {
            (Some(p), Some(d)) => Some((p * base + d) as nat),
            _ => None,
        }
    }
}

/// The value a rendering denotes under one style's rules: a `0x`-prefixed
/// style requires and strips the prefix.
pub open spec fn spec_parse_styled(s: Seq<char>, style: NumberFormat) -> Option<nat> {
    match style {
        NumberFormat::Dec => spec_parse(s, 10, dec_digits()),
        NumberFormat::LowerHex => if s.len() >= 2 && s.take(2) == "0x"@ {
            spec_parse(s.skip(2), 16, hex_lower_digits())
        } else {
            None
        },
        NumberFormat::UpperHex => if s.len() >= 2 && s.take(2) == "0x"@ {
            spec_parse(s.skip(2), 16, hex_upper_digits())
        } else {
            None
        },
    }
}

/// A parsed value clipped to the machine word: values beyond `u64::MAX`
/// are reported as no value.
pub open spec fn clamp_u64(v: Option<nat>) -> Option<u64> {
    match v {
        Some(n) => if n <= u64::MAX {
            Some(n as u64)
        } else {
            None
        },
        None => None,
    }
}

/// Appends the digits of `v` to `out`.
fn push_digits(v: u64, base: u64, digs: &str, out: &mut String)
    requires
        2 <= base <= 36,
        digs@.len() == base as int,
        vstd::string::is_ascii(digs),
    ensures
        final(out)@ == old(out)@ + spec_digits(v as nat, base as nat, digs@),
    decreases v,
{
    if v < base {
        let piece = digs.substring_ascii(v as usize, v as usize + 1);
        proof {
            assert(piece@ =~= spec_digits(v as nat, base as nat, digs@));
        }
        out.append(piece);
    } else {
        proof {
            vstd::arithmetic::div_mod::lemma_div_is_strictly_smaller(v as int, base as int);
        }
        push_digits(v / base, base, digs, out);
        let d = (v % base) as usize;
        let piece = digs.substring_ascii(d, d + 1);
        proof {
            assert(piece@ =~= seq![digs@[(v % base) as int]]);
        }
        out.append(piece);
        proof {
            assert(final(out)@ =~= old(out)@ + spec_digits(v as nat, base as nat, digs@));
        }
    }
}

/// Renders `value` under the configured style; with none configured the
/// rendering is decimal.
pub fn format_number(value: u64, style: Option<NumberFormat>) -> (r: String)
    ensures
        r@ == spec_format_number(value as nat, style),
{
    let st = match style {
        None => NumberFormat::Dec,
        Some(s) => s,
    };
    match st {
        NumberFormat::Dec => {
            let digs = "0123456789";
            proof {
                reveal_strlit("0123456789");
            }
            let mut out = String::new();
            push_digits(value, 10, digs, &mut out);
            out
        },
        NumberFormat::LowerHex => {
            let digs = "0123456789abcdef";
            proof {
                reveal_strlit("0123456789abcdef");
            }
            let mut out = String::from_str("0x");
            push_digits(value, 16, digs, &mut out);
            out
        },
        NumberFormat::UpperHex => {
            let digs = "0123456789ABCDEF";
            proof {
                reveal_strlit("0123456789ABCDEF");
            }
            let mut out = String::from_str("0x");
            push_digits(value, 16, digs, &mut out);
            out
        },
    }
}

/// The position of `c` in the digit alphabet `digs`, by linear search.
fn digit_of(c: char, digs: &str) -> (r: Option<usize>)
    requires
        digits_unique(digs@),
    ensures
        match r {
            Some(d) => digit_index(digs@, c) == Some(d as int),
            None => digit_index(digs@, c) is None,
        },
{
    let n = digs.unicode_len();
    let mut i: usize = 0;
    while i < n
        invariant
            i <= n,
            n == digs@.len(),
            digits_unique(digs@),
            forall|k: int| 0 <= k < i ==> digs@[k] != c,
        decreases n - i,
    {
        if digs.get_char(i) == c {
            proof {
                let w = choose|t: int| 0 <= t < digs@.len() && #[trigger] digs@[t] == c;
                assert(w == i as int);
            }
            return Some(i);
        }
        i += 1;
    }
    None
}

/// If some proper prefix of a digit string has no value, the whole string
/// has none.
proof fn lemma_parse_none_prefix(t: Seq<char>, i: int, base: nat, digs: Seq<char>)
    requires
        1 <= i <= t.len(),
        spec_parse(t.take(i), base, digs) is None,
    ensures
        spec_parse(t, base, digs) is None,
    decreases t.len(),
{
    if i == t.len() {
        assert(t.take(i) =~= t);
    } else {
        assert(t.drop_last().take(i) =~= t.take(i));
        lemma_parse_none_prefix(t.drop_last(), i, base, digs);
    }
}

/// The value of a digit string is at least the value of any of its
/// nonempty prefixes.
proof fn lemma_parse_ge(t: Seq<char>, i: int, base: nat, digs: Seq<char>)
    requires
        2 <= base,
        1 <= i <= t.len(),
        spec_parse(t, base, digs) is Some,
        spec_parse(t.take(i), base, digs) is Some,
    ensures
        spec_parse(t.take(i), base, digs)->Some_0 <= spec_parse(t, base, digs)->Some_0,
    decreases t.len(),
{
    if i == t.len() {
        assert(t.take(i) =~= t);
    } else {
        assert(t.len() >= 2);
        let p = spec_parse(t.drop_last(), base, digs)->Some_0;
        assert(t.drop_last().take(i) =~= t.take(i));
        lemma_parse_ge(t.drop_last(), i, base, digs);
        let d = digit_index(digs, t.last())->Some_0;
        assert(p * base + d >= p) by (nonlinear_arith)
            requires
                base >= 2,
                p >= 0,
                d >= 0,
        ;
    }
}

/// A digit string is never empty.
proof fn lemma_digits_len(v: nat, base: nat, digs: Seq<char>)
    requires
        2 <= base,
    ensures
        spec_digits(v, base, digs).len() >= 1,
    decreases v,
{
    if v >= base {
        vstd::arithmetic::div_mod::lemma_div_is_strictly_smaller(v as int, base as int);
        lemma_digits_len(v / base, base, digs);
    }
}

/// Rendering a value and reading the digits back recovers the value
/// exactly, for any base and any alphabet of distinct digits.
proof fn lemma_digits_round_trip(v: nat, base: nat, digs: Seq<char>)
    requires
        2 <= base,
        digs.len() == base,
        digits_unique(digs),
    ensures
        spec_parse(spec_digits(v, base, digs), base, digs) == Some(v),
    decreases v,
{
    let s = spec_digits(v, base, digs);
    if v < base {
        assert(s =~= seq![digs[v as int]]);
        assert(digs[v as int] == s[0]);
        let w = choose|t: int| 0 <= t < digs.len() && #[trigger] digs[t] == s[0];
        assert(w == v as int);
    } else {
        vstd::arithmetic::div_mod::lemma_div_is_strictly_smaller(v as int, base as int);
        lemma_digits_round_trip(v / base, base, digs);
        lemma_digits_len(v / base, base, digs);
        let rec = spec_digits(v / base, base, digs);
        assert(s.drop_last() =~= rec);
        let m = (v % base) as int;
        assert(0 <= m < base);
        assert(s.last() == digs[m]);
        let w = choose|t: int| 0 <= t < digs.len() && #[trigger] digs[t] == s.last();
        assert(w == m);
        vstd::arithmetic::div_mod::lemma_fundamental_div_mod(v as int, base as int);
        assert(spec_parse(s, base, digs) == Some((v / base) * base + (v % base)));
        assert((v / base) * base + (v % base) == v) by (nonlinear_arith)
            requires
                base >= 2,
                v == base * (v / base) + v % base,
        ;
    }
}

/// Length, distinctness and content facts about the three digit
/// alphabets.
proof fn lemma_digit_alphabets()
    ensures
        dec_digits().len() == 10,
        hex_lower_digits().len() == 16,
        hex_upper_digits().len() == 16,
        digits_unique(dec_digits()),
        digits_unique(hex_lower_digits()),
        digits_unique(hex_upper_digits()),
{
    reveal_strlit("0123456789");
    reveal_strlit("0123456789abcdef");
    reveal_strlit("0123456789ABCDEF");
}

/// Numeric formatting round-trips: parsing the rendering of any value
/// under the same style's rules yields the value exactly.
pub proof fn lemma_format_round_trip(v: nat, style: NumberFormat)
    ensures
        spec_parse_styled(spec_format(v, style), style) == Some(v),
{
    lemma_digit_alphabets();
    match style {
        NumberFormat::Dec => {
            lemma_digits_round_trip(v, 10, dec_digits());
        },
        NumberFormat::LowerHex => {
            reveal_strlit("0x");
            let d = spec_digits(v, 16, hex_lower_digits());
            lemma_digits_len(v, 16, hex_lower_digits());
            let s = "0x"@ + d;
            assert(s.take(2) =~= "0x"@);
            assert(s.skip(2) =~= d);
            lemma_digits_round_trip(v, 16, hex_lower_digits());
        },
        NumberFormat::UpperHex => {
            reveal_strlit("0x");
            let d = spec_digits(v, 16, hex_upper_digits());
            lemma_digits_len(v, 16, hex_upper_digits());
            let s = "0x"@ + d;
            assert(s.take(2) =~= "0x"@);
            assert(s.skip(2) =~= d);
            lemma_digits_round_trip(v, 16, hex_upper_digits());
        },
    }
}

/// Reads the digits of `s` from position `from` on, under the given base
/// and digit alphabet.
fn parse_digits(s: &str, from: usize, base: u64, digs: &str) -> (r: Option<u64>)
    requires
        from <= s@.len(),
        2 <= base,
        digs@.len() == base as int,
        digits_unique(digs@),
    ensures
        r == clamp_u64(spec_parse(s@.skip(from as int), base as nat, digs@)),
{
    let ghost t = s@.skip(from as int);
    let n = s.unicode_len();
    if from == n {
        proof {
            assert(t.len() == 0);
        }
        return None;
    }
    let mut acc: u64 = 0;
    let mut i: usize = from;
    while i < n
        invariant
            from <= i <= n,
            from < n,
            n == s@.len(),
            t == s@.skip(from as int),
            2 <= base,
            digs@.len() == base as int,
            digits_unique(digs@),
            i > from ==> spec_parse(t.take(i - from), base as nat, digs@) == Some(acc as nat),
            i == from ==> acc == 0,
        decreases n - i,
    {
        let c = s.get_char(i);
        let ghost k = i - from;
        proof {
            assert(t[k] == s@[i as int]);
            assert(t.take(k + 1).drop_last() =~= t.take(k));
            assert(t.take(k + 1).last() == t[k]);
        }
        match digit_of(c, digs) {
            None => {
                proof {
                    assert(spec_parse(t.take(k + 1), base as nat, digs@) is None);
                    lemma_parse_none_prefix(t, k + 1, base as nat, digs@);
                }
                return None;
            },
            Some(d) => {
                if i == from {
                    acc = d as u64;
                    proof {
                        assert(t.take(1) =~= seq![t[0]]);
                        assert(spec_parse(t.take(1), base as nat, digs@) == Some(
                            d as nat,
                        ));
                        assert(d < base);
                    }
                } else {
                    let step = match acc.checked_mul(base) {
                        Some(m) => m.checked_add(d as u64),
                        None => None,
                    };
                    match step {
                        Some(a2) => {
                            proof {
                                assert(spec_parse(t.take(k + 1), base as nat, digs@)
                                    == Some((acc as nat) * (base as nat) + d as nat));
                            }
                            acc = a2;
                        },
                        None => {
                            proof {
                                assert(spec_parse(t.take(k + 1), base as nat, digs@)
                                    == Some((acc as nat) * (base as nat) + d as nat));
                                assert((acc as nat) * (base as nat) + d as nat
                                    > u64::MAX as nat);
                                if spec_parse(t, base as nat, digs@) is Some {
                                    lemma_parse_ge(t, k + 1, base as nat, digs@);
                                }
                            }
                            return None;
                        },
                    }
                }
            },
        }
        i += 1;
    }
    proof {
        assert(t.take(n - from) =~= t);
    }
    Some(acc)
}

/// Reads a rendering back under one style's rules: the exact inverse of
/// `format_number` for every value the machine word can hold.
pub fn parse_number(s: &str, style: NumberFormat) -> (r: Option<u64>)
    ensures
        r == clamp_u64(spec_parse_styled(s@, style)),
{
    proof {
        lemma_digit_alphabets();
    }
    match style {
        NumberFormat::Dec => {
            let digs = "0123456789";
            proof {
                assert(s@.skip(0) =~= s@);
            }
            parse_digits(s, 0, 10, digs)
        },
        NumberFormat::LowerHex => {
            let digs = "0123456789abcdef";
            parse_hex_prefixed(s, digs)
        },
        NumberFormat::UpperHex => {
            let digs = "0123456789ABCDEF";
            parse_hex_prefixed(s, digs)
        },
    }
}

/// Strips a mandatory `0x` prefix, then reads hexadecimal digits.
fn parse_hex_prefixed(s: &str, digs: &str) -> (r: Option<u64>)
    requires
        digs@.len() == 16,
        digits_unique(digs@),
    ensures
        r == (if s@.len() >= 2 && s@.take(2) == "0x"@ {
            clamp_u64(spec_parse(s@.skip(2), 16, digs@))
        } else {
            Option::<u64>::None
        }),
{
    proof {
        reveal_strlit("0x");
    }
    let n = s.unicode_len();
    if n < 2 {
        return None;
    }
    let c0 = s.get_char(0);
    let c1 = s.get_char(1);
    if c0 != '0' || c1 != 'x' {
        proof {
            assert(s@.take(2)[0] == s@[0]);
            assert(s@.take(2)[1] == s@[1]);
            assert("0x"@[0] == '0' && "0x"@[1] == 'x');
            assert(s@.take(2) != "0x"@);
        }
        return None;
    }
    proof {
        assert(s@.take(2) =~= "0x"@);
    }
    parse_digits(s, 2, 16, digs)
}

} // verus!
