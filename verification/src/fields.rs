//! Typing of individual record fields: best-effort CPK color decoding,
//! canonicalization of decimal text, the closed category enumerations, and
//! discovery years.
use vstd::prelude::*;

use crate::text::{
    chars_eq_str, lower, parse_uint_str, spec_parse_uint, str_to_lower_chars,
};

verus! {

/// The physical phase of an element under standard conditions.
#[derive(Clone, Copy, PartialEq, Eq, Structural, Debug, Hash)]
pub enum StateOfMatter {
    Solid,
    Liquid,
    Gas,
}

/// The coarse chemical classification of an element; the enumeration is
/// closed, and a category outside it is a fatal data error.
#[derive(Clone, Copy, PartialEq, Eq, Structural, Debug, Hash)]
pub enum GroupBlock {
    AlkaliMetal,
    AlkalineEarthMetal,
    Lanthanide,
    Actinide,
    TransitionMetal,
    PostTransitionMetal,
    Metalloid,
    NonMetal,
    Halogen,
    NobleGas,
}

// ---------------------------------------------------------------------------
// CPK color
// ---------------------------------------------------------------------------
pub open spec fn is_hex_digit(c: char) -> bool {
    ('0' <= c && c <= '9') || ('a' <= c && c <= 'f') || ('A' <= c && c <= 'F')
}

pub open spec fn hex_val(c: char) -> int {
    if '0' <= c && c <= '9' {
        c as u32 - 48
    } else if 'a' <= c && c <= 'f' {
        c as u32 - 97 + 10
    } else if 'A' <= c && c <= 'F' {
        c as u32 - 65 + 10
    } else {
        0
    }
}

/// Best-effort decode of a CPK hex color: two hex digits per channel, red
/// then green then blue; a missing, too-short or non-hex string yields the
/// zero (black) triplet. Never a fatal error.
pub open spec fn spec_cpk(s: Seq<char>) -> Seq<u8> {
    if s.len() >= 6 && (forall|i: int| 0 <= i < 6 ==> is_hex_digit(#[trigger] s[i])) {
        seq![
            (hex_val(s[0]) * 16 + hex_val(s[1])) as u8,
            (hex_val(s[2]) * 16 + hex_val(s[3])) as u8,
            (hex_val(s[4]) * 16 + hex_val(s[5])) as u8,
        ]
    } else {
        seq![0u8, 0u8, 0u8]
    }
}

fn exec_hex_val(c: char) -> (r: Option<u8>)
    ensures
        match r {
            Some(v) => is_hex_digit(c) && v == hex_val(c),
            None => !is_hex_digit(c),
        },
{
    let u = c as u32;
    if 48 <= u && u <= 57 {
        Some((u - 48) as u8)
    } else if 97 <= u && u <= 102 {
        Some((u - 97 + 10) as u8)
    } else if 65 <= u && u <= 70 {
        Some((u - 65 + 10) as u8)
    } else {
        None
    }
}

/// Decodes a CPK color cell into its red, green and blue channels.
#[verifier::loop_isolation(false)]
pub fn decode_cpk(s: &str) -> (r: [u8; 3])
    ensures
        r@ == spec_cpk(s@),
{
    let black: [u8; 3] = [0u8; 3];
    proof {
        assert(black@ =~= seq![0u8, 0u8, 0u8]);
    }
    let n = s.unicode_len();
    if n < 6 {
        return black;
    }
    let mut digits: [u8; 6] = [0u8; 6];
    let mut i: usize = 0;
    while i < 6
        invariant
            i <= 6,
            6 <= s@.len(),
            forall|j: int| 0 <= j < i ==> is_hex_digit(#[trigger] s@[j]),
            forall|j: int| 0 <= j < i ==> digits@[j] == hex_val(s@[j]),
        decreases 6 - i,
    {
        match exec_hex_val(s.get_char(i)) {
            Some(v) => {
                digits[i] = v;
            }
            None => {
                proof {
                    assert(!is_hex_digit(s@[i as int]));
                }
                return black;
            }
        }
        i = i + 1;
    }
    let r: [u8; 3] = [
        digits[0] * 16 + digits[1],
        digits[2] * 16 + digits[3],
        digits[4] * 16 + digits[5],
    ];
    proof {
        assert(r@ =~= spec_cpk(s@));
    }
    r
}

// ---------------------------------------------------------------------------
// Decimal text canonicalization
// ---------------------------------------------------------------------------
pub open spec fn has_dot(s: Seq<char>) -> bool {
    exists|i: int| 0 <= i < s.len() && s[i] == '.'
}

/// The canonical decimal text of a measurement cell: an absent value reads
/// as zero, and a numeral without a decimal point gains one, preserving the
/// distinction between integral and fractional measurements.
pub open spec fn canonical_decimal(s: Seq<char>) -> Seq<char> {
    if s.len() == 0 {
        "0."@
    } else if has_dot(s) {
        s
    } else {
        s + "."@
    }
}

/// Canonicalizes one decimal cell.
#[verifier::loop_isolation(false)]
pub fn canonicalize_decimal(s: &str) -> (r: String)
    ensures
        r@ == canonical_decimal(s@),
{
    let n = s.unicode_len();
    if n == 0 {
        let r = String::from_str("0.");
        return r;
    }
    let mut i: usize = 0;
    while i < n
        invariant
            i <= n,
            forall|j: int| 0 <= j < i ==> s@[j] != '.',
        decreases n - i,
    {
        if s.get_char(i) == '.' {
            return s.to_owned();
        }
        i = i + 1;
    }
    assert(!has_dot(s@));
    let mut r = s.to_owned();
    r.append(".");
    r
}

// ---------------------------------------------------------------------------
// Standard state
// ---------------------------------------------------------------------------
/// The phase a standard-state cell names, by exact match after lowercasing;
/// the `expected to be a ...` phrasings are synonyms.
pub open spec fn spec_state(s: Seq<char>) -> Option<StateOfMatter> {
    let l = lower(s);
    if l == "solid"@ || l == "expected to be a solid"@ {
        Some(StateOfMatter::Solid)
    } else if l == "liquid"@ || l == "expected to be a liquid"@ {
        Some(StateOfMatter::Liquid)
    } else if l == "gas"@ || l == "expected to be a gas"@ {
        Some(StateOfMatter::Gas)
    } else {
        None
    }
}

/// Maps one standard-state cell into the closed phase enumeration.
pub fn parse_state(s: &str) -> (r: Option<StateOfMatter>)
    ensures
        r == spec_state(s@),
{
    let l = str_to_lower_chars(s);
    if chars_eq_str(&l, "solid") || chars_eq_str(&l, "expected to be a solid") {
        Some(StateOfMatter::Solid)
    } else if chars_eq_str(&l, "liquid") || chars_eq_str(&l, "expected to be a liquid") {
        Some(StateOfMatter::Liquid)
    } else if chars_eq_str(&l, "gas") || chars_eq_str(&l, "expected to be a gas") {
        Some(StateOfMatter::Gas)
    } else {
        None
    }
}

// ---------------------------------------------------------------------------
// Group block
// ---------------------------------------------------------------------------
/// The category a group-block cell names, by exact match after lowercasing.
pub open spec fn spec_group(s: Seq<char>) -> Option<GroupBlock> {
    let l = lower(s);
    if l == "halogen"@ {
        Some(GroupBlock::Halogen)
    } else if l == "noble gas"@ {
        Some(GroupBlock::NobleGas)
    } else if l == "transition metal"@ {
        Some(GroupBlock::TransitionMetal)
    } else if l == "post-transition metal"@ {
        Some(GroupBlock::PostTransitionMetal)
    } else if l == "alkali metal"@ {
        Some(GroupBlock::AlkaliMetal)
    } else if l == "alkaline earth metal"@ {
        Some(GroupBlock::AlkalineEarthMetal)
    } else if l == "metalloid"@ {
        Some(GroupBlock::Metalloid)
    } else if l == "nonmetal"@ {
        Some(GroupBlock::NonMetal)
    } else if l == "actinide"@ {
        Some(GroupBlock::Actinide)
    } else if l == "lanthanide"@ {
        Some(GroupBlock::Lanthanide)
    } else {
        None
    }
}

/// Maps one group-block cell into the closed category enumeration.
pub fn parse_group(s: &str) -> (r: Option<GroupBlock>)
    ensures
        r == spec_group(s@),
{
    let l = str_to_lower_chars(s);
    if chars_eq_str(&l, "halogen") {
        Some(GroupBlock::Halogen)
    } else if chars_eq_str(&l, "noble gas") {
        Some(GroupBlock::NobleGas)
    } else if chars_eq_str(&l, "transition metal") {
        Some(GroupBlock::TransitionMetal)
    } else if chars_eq_str(&l, "post-transition metal") {
        Some(GroupBlock::PostTransitionMetal)
    } else if chars_eq_str(&l, "alkali metal") {
        Some(GroupBlock::AlkaliMetal)
    } else if chars_eq_str(&l, "alkaline earth metal") {
        Some(GroupBlock::AlkalineEarthMetal)
    } else if chars_eq_str(&l, "metalloid") {
        Some(GroupBlock::Metalloid)
    } else if chars_eq_str(&l, "nonmetal") {
        Some(GroupBlock::NonMetal)
    } else if chars_eq_str(&l, "actinide") {
        Some(GroupBlock::Actinide)
    } else if chars_eq_str(&l, "lanthanide") {
        Some(GroupBlock::Lanthanide)
    } else {
        None
    }
}

// ---------------------------------------------------------------------------
// Year discovered
// ---------------------------------------------------------------------------
/// The discovery year a cell denotes: an empty cell or the literal
/// `Ancient` compiles to zero, meaning no specific numeric year; anything
/// else must be an unsigned decimal integer.
pub open spec fn spec_year(s: Seq<char>) -> Option<int> {
    if s.len() == 0 || s == "Ancient"@ {
        Some(0)
    } else {
        match spec_parse_uint(s, 0xFFFF) {
            Some(v) => Some(v as int),
            None => None,
        }
    }
}

/// Parses one year-discovered cell.
pub fn parse_year(s: &str) -> (r: Option<u16>)
    ensures
        match r {
            Some(y) => spec_year(s@) == Some(y as int),
            None => spec_year(s@) is None,
        },
{
    if s.unicode_len() == 0 || crate::text::str_eq(s, "Ancient") {
        return Some(0);
    }
    match parse_uint_str(s, 0xFFFF) {
        Some(v) => Some(v as u16),
        None => None,
    }
}

/// The atomic radius a cell denotes: an absent value reads as zero;
/// anything else must be an unsigned decimal integer.
pub open spec fn spec_radius(s: Seq<char>) -> Option<int> {
    if s.len() == 0 {
        Some(0)
    } else {
        match spec_parse_uint(s, 0xFFFF) {
            Some(v) => Some(v as int),
            None => None,
        }
    }
}

/// Parses one atomic-radius cell.
pub fn parse_radius(s: &str) -> (r: Option<u16>)
    ensures
        match r {
            Some(x) => spec_radius(s@) == Some(x as int),
            None => spec_radius(s@) is None,
        },
{
    if s.unicode_len() == 0 {
        return Some(0);
    }
    match parse_uint_str(s, 0xFFFF) {
        Some(v) => Some(v as u16),
        None => None,
    }
}

} // verus!
