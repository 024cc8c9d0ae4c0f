//! The smushing rule engine.
//!
//! Every rule looks at two sub-characters, the earlier one (`c1`, from the
//! glyph on the left or above) and the later one (`c2`), and either names the
//! sub-character that replaces the pair or declines.

use vstd::prelude::*;
use vstd::string::StringSliceAdditionalSpecFns;

verus! {

/// The sub-characters that the rules name.
pub const SPACE: u8 = 0x20;
pub const LPAREN: u8 = 0x28;
pub const RPAREN: u8 = 0x29;
pub const MINUS: u8 = 0x2d;
pub const SLASH: u8 = 0x2f;
pub const LESS: u8 = 0x3c;
pub const EQUALS: u8 = 0x3d;
pub const GREATER: u8 = 0x3e;
pub const UPPER_X: u8 = 0x58;
pub const UPPER_Y: u8 = 0x59;
pub const LBRACKET: u8 = 0x5b;
pub const BACKSLASH: u8 = 0x5c;
pub const RBRACKET: u8 = 0x5d;
pub const UNDERSCORE: u8 = 0x5f;
pub const LBRACE: u8 = 0x7b;
pub const BAR: u8 = 0x7c;
pub const RBRACE: u8 = 0x7d;

/// Whether the character with code `c` starts at byte `i` of a UTF-8 text.
///
/// Codes below 128 are a single byte; the others are the two-byte encoding
/// of U+0080 to U+00FF.
pub open spec fn char_at(bytes: Seq<u8>, i: int, c: u8) -> bool {
    if c < 0x80 {
        0 <= i < bytes.len() && bytes[i] == c
    } else {
        &&& 0 <= i
        &&& i + 1 < bytes.len()
        &&& bytes[i] == (0xC0u8 | (c >> 6))
        &&& bytes[i + 1] == (0x80u8 | (c & 0x3F))
    }
}

/// `r` is the byte index of the first occurrence of the character with code
/// `c` in `bytes`, or `None` where there is no occurrence.
pub open spec fn is_first_index(bytes: Seq<u8>, c: u8, r: Option<usize>) -> bool {
    match r {
        Some(i) => char_at(bytes, i as int, c) && forall|j: int| 0 <= j < i ==> !char_at(bytes, j, c),
        None => forall|j: int| 0 <= j < bytes.len() ==> !char_at(bytes, j, c),
    }
}

fn find_index(bytes: &[u8], c: u8) -> (r: Option<usize>)
    ensures
        is_first_index(bytes@, c, r),
{
    let n: usize = bytes.len();
    let mut i: usize = 0;
    while i < n
        invariant
            n == bytes@.len(),
            i <= n,
            forall|j: int| 0 <= j < i ==> !char_at(bytes@, j, c),
        decreases n - i,
    {
        if c < 0x80 {
            if bytes[i] == c {
                return Some(i);
            }
        } else if bytes[i] == (0xC0u8 | (c >> 6)) && i + 1 < n && bytes[i + 1] == (0x80u8 | (c & 0x3F)) {
            return Some(i);
        }
        i = i + 1;
    }
    None
}

/// The byte indexes at which the characters with codes `c1` and `c2` first
/// occur in `string`.
pub fn find_indexes(string: &'static str, c1: u8, c2: u8) -> (r: (Option<usize>, Option<usize>))
    ensures
        is_first_index(string.spec_bytes(), c1, r.0),
        is_first_index(string.spec_bytes(), c2, r.1),
{
    let bytes = string.as_bytes();
    (find_index(bytes, c1), find_index(bytes, c2))
}

/// What the universal rule leaves of a pair: the later sub-character
/// overwrites the earlier one, except that a space never overwrites and a
/// hard blank overwrites only a space.
pub open spec fn spec_uni_smush(c1: u8, c2: u8, hard_blank: u8) -> u8 {
    if c2 == SPACE {
        c1
    } else if c2 == hard_blank && c1 != SPACE {
        c1
    } else {
        c2
    }
}

/// Universal smushing: the overlap rule used where no numbered rule is
/// enabled.
pub fn uni_smush(c1: u8, c2: u8, hard_blank: u8) -> (r: u8)
    ensures
        r == spec_uni_smush(c1, c2, hard_blank),
{
    if c2 == SPACE {
        c1
    } else if c2 == hard_blank && c1 != SPACE {
        c1
    } else {
        c2
    }
}

/// The place of a sub-character in the hierarchy `|`, `/`, `\`, `[`, `]`,
/// `{`, `}`, `(`, `)`, `<`, `>`, or `None` for any other.
pub open spec fn hierarchy_index(c: u8) -> Option<int> {
    if c == BAR {
        Some(0)
    } else if c == SLASH {
        Some(1)
    } else if c == BACKSLASH {
        Some(2)
    } else if c == LBRACKET {
        Some(3)
    } else if c == RBRACKET {
        Some(4)
    } else if c == LBRACE {
        Some(5)
    } else if c == RBRACE {
        Some(6)
    } else if c == LPAREN {
        Some(7)
    } else if c == RPAREN {
        Some(8)
    } else if c == LESS {
        Some(9)
    } else if c == GREATER {
        Some(10)
    } else {
        None
    }
}

/// The place of a sub-character in the text `[] {} ()`, the space counted at
/// its first place, or `None` for any other.
pub open spec fn pair_index(c: u8) -> Option<int> {
    if c == LBRACKET {
        Some(0)
    } else if c == RBRACKET {
        Some(1)
    } else if c == SPACE {
        Some(2)
    } else if c == LBRACE {
        Some(3)
    } else if c == RBRACE {
        Some(4)
    } else if c == LPAREN {
        Some(6)
    } else if c == RPAREN {
        Some(7)
    } else {
        None
    }
}

/// Rule 1, equal characters: the pair is one sub-character twice, and that
/// is not the hard blank.
pub open spec fn spec_hrule1(c1: u8, c2: u8, hard_blank: u8) -> Option<u8> {
    if c1 == c2 && c1 != hard_blank {
        Some(c1)
    } else {
        None
    }
}

/// Rule 2, underscore: an underscore gives way to any sub-character of the
/// hierarchy.
pub open spec fn spec_hrule2(c1: u8, c2: u8) -> Option<u8> {
    if c1 == UNDERSCORE && hierarchy_index(c2) is Some {
        Some(c2)
    } else if c2 == UNDERSCORE && hierarchy_index(c1) is Some {
        Some(c1)
    } else {
        None
    }
}

/// Rule 3, hierarchy: of two sub-characters at different places of the
/// hierarchy that are not next to each other, the later one stays.
pub open spec fn spec_hrule3(c1: u8, c2: u8) -> Option<u8> {
    match (hierarchy_index(c1), hierarchy_index(c2)) {
        (Some(p1), Some(p2)) => if p1 != p2 && p1 - p2 != 1 && p2 - p1 != 1 {
            Some(if p1 > p2 { c1 } else { c2 })
        } else {
            None
        },
        _ => None,
    }
}

/// Rule 4, opposite pairs: two sub-characters at most one place apart in
/// `[] {} ()` become a vertical bar.
pub open spec fn spec_hrule4(c1: u8, c2: u8) -> Option<u8> {
    match (pair_index(c1), pair_index(c2)) {
        (Some(p1), Some(p2)) => if p1 - p2 <= 1 && p2 - p1 <= 1 {
            Some(BAR)
        } else {
            None
        },
        _ => None,
    }
}

/// Rule 5, big X: `/\` becomes `|`, `\/` becomes `Y` and `><` becomes `X`.
pub open spec fn spec_hrule5(c1: u8, c2: u8) -> Option<u8> {
    if c1 == SLASH && c2 == BACKSLASH {
        Some(BAR)
    } else if c1 == BACKSLASH && c2 == SLASH {
        Some(UPPER_Y)
    } else if c1 == GREATER && c2 == LESS {
        Some(UPPER_X)
    } else {
        None
    }
}

/// Rule 6, hard blanks: two hard blanks become one.
pub open spec fn spec_hrule6(c1: u8, c2: u8, hard_blank: u8) -> Option<u8> {
    if c1 == hard_blank && c2 == hard_blank {
        Some(hard_blank)
    } else {
        None
    }
}

/// Vertical rule 1, equal characters: the pair is one sub-character twice.
pub open spec fn spec_vrule1(c1: u8, c2: u8) -> Option<u8> {
    if c1 == c2 {
        Some(c1)
    } else {
        None
    }
}

/// Vertical rule 4, horizontal lines: `-` over `_`, or `_` over `-`, becomes
/// `=`.
pub open spec fn spec_vrule4(c1: u8, c2: u8) -> Option<u8> {
    if (c1 == MINUS && c2 == UNDERSCORE) || (c1 == UNDERSCORE && c2 == MINUS) {
        Some(EQUALS)
    } else {
        None
    }
}

/// Vertical rule 5, vertical lines: `|` over `|` stays `|`.
pub open spec fn spec_vrule5(c1: u8, c2: u8) -> Option<u8> {
    if c1 == BAR && c2 == BAR {
        Some(BAR)
    } else {
        None
    }
}

/// The place of `c` in the hierarchy, found in its text.
fn hierarchy_place(c: u8) -> (r: Option<usize>)
    ensures
        match hierarchy_index(c) {
            Some(p) => r == Some(p as usize),
            None => r is None,
        },
{
    let rule = "|/\\[]{}()<>";
    proof {
        reveal_strlit("|/\\[]{}()<>");
        assert(vstd::string::is_ascii(rule));
        vstd::string::is_ascii_spec_bytes(rule);
        let bytes = rule.spec_bytes();
        assert(bytes.len() == 11);
        assert(bytes[0] == BAR && bytes[1] == SLASH && bytes[2] == BACKSLASH);
        assert(bytes[3] == LBRACKET && bytes[4] == RBRACKET);
        assert(bytes[5] == LBRACE && bytes[6] == RBRACE);
        assert(bytes[7] == LPAREN && bytes[8] == RPAREN);
        assert(bytes[9] == LESS && bytes[10] == GREATER);
        assert((0xC0u8 | (c >> 6)) >= 0xC0u8) by (bit_vector);
        assert(char_at(bytes, 0, c) == (c == BAR));
        assert(char_at(bytes, 1, c) == (c == SLASH));
        assert(char_at(bytes, 2, c) == (c == BACKSLASH));
        assert(char_at(bytes, 3, c) == (c == LBRACKET));
        assert(char_at(bytes, 4, c) == (c == RBRACKET));
        assert(char_at(bytes, 5, c) == (c == LBRACE));
        assert(char_at(bytes, 6, c) == (c == RBRACE));
        assert(char_at(bytes, 7, c) == (c == LPAREN));
        assert(char_at(bytes, 8, c) == (c == RPAREN));
        assert(char_at(bytes, 9, c) == (c == LESS));
        assert(char_at(bytes, 10, c) == (c == GREATER));
    }
    let (p, _) = find_indexes(rule, c, c);
    p
}

/// The place of `c` in `[] {} ()`, found in that text.
fn pair_place(c: u8) -> (r: Option<usize>)
    ensures
        match pair_index(c) {
            Some(p) => r == Some(p as usize),
            None => r is None,
        },
{
    let rule = "[] {} ()";
    proof {
        reveal_strlit("[] {} ()");
        assert(vstd::string::is_ascii(rule));
        vstd::string::is_ascii_spec_bytes(rule);
        let bytes = rule.spec_bytes();
        assert(bytes.len() == 8);
        assert(bytes[0] == LBRACKET && bytes[1] == RBRACKET && bytes[2] == SPACE);
        assert(bytes[3] == LBRACE && bytes[4] == RBRACE && bytes[5] == SPACE);
        assert(bytes[6] == LPAREN && bytes[7] == RPAREN);
        assert((0xC0u8 | (c >> 6)) >= 0xC0u8) by (bit_vector);
        assert(char_at(bytes, 0, c) == (c == LBRACKET));
        assert(char_at(bytes, 1, c) == (c == RBRACKET));
        assert(char_at(bytes, 2, c) == (c == SPACE));
        assert(char_at(bytes, 3, c) == (c == LBRACE));
        assert(char_at(bytes, 4, c) == (c == RBRACE));
        assert(char_at(bytes, 5, c) == (c == SPACE));
        assert(char_at(bytes, 6, c) == (c == LPAREN));
        assert(char_at(bytes, 7, c) == (c == RPAREN));
    }
    let (p, _) = find_indexes(rule, c, c);
    p
}

/// Rule 1: equal character smushing.
pub fn hrule1_smush(ch1: u8, ch2: u8, hard_blank: u8) -> (r: Option<u8>)
    ensures
        r == spec_hrule1(ch1, ch2, hard_blank),
{
    if ch1 == ch2 && ch1 != hard_blank {
        Some(ch1)
    } else {
        None
    }
}

/// Rule 2: underscore smushing.
pub fn hrule2_smush(ch1: u8, ch2: u8) -> (r: Option<u8>)
    ensures
        r == spec_hrule2(ch1, ch2),
{
    if ch1 == UNDERSCORE && hierarchy_place(ch2).is_some() {
        Some(ch2)
    } else if ch2 == UNDERSCORE && hierarchy_place(ch1).is_some() {
        Some(ch1)
    } else {
        None
    }
}

/// Rule 3: hierarchy smushing.
pub fn hrule3_smush(ch1: u8, ch2: u8) -> (r: Option<u8>)
    ensures
        r == spec_hrule3(ch1, ch2),
{
    if let (Some(p1), Some(p2)) = (hierarchy_place(ch1), hierarchy_place(ch2)) {
        if p1 > p2 + 1 {
            return Some(ch1);
        }
        if p2 > p1 + 1 {
            return Some(ch2);
        }
    }
    None
}

/// Rule 4: opposite pair smushing.
pub fn hrule4_smush(ch1: u8, ch2: u8) -> (r: Option<u8>)
    ensures
        r == spec_hrule4(ch1, ch2),
{
    if let (Some(p1), Some(p2)) = (pair_place(ch1), pair_place(ch2)) {
        if p1 <= p2 + 1 && p2 <= p1 + 1 {
            return Some(BAR);
        }
    }
    None
}

/// Rule 5: big X smushing.
pub fn hrule5_smush(c1: u8, c2: u8) -> (r: Option<u8>)
    ensures
        r == spec_hrule5(c1, c2),
{
    if c1 == SLASH && c2 == BACKSLASH {
        Some(BAR)
    } else if c1 == BACKSLASH && c2 == SLASH {
        Some(UPPER_Y)
    } else if c1 == GREATER && c2 == LESS {
        Some(UPPER_X)
    } else {
        None
    }
}

/// Rule 6: hard blank smushing.
pub fn hrule6_smush(c1: u8, c2: u8, hard_blank: u8) -> (r: Option<u8>)
    ensures
        r == spec_hrule6(c1, c2, hard_blank),
{
    if c1 == hard_blank && c2 == hard_blank {
        Some(hard_blank)
    } else {
        None
    }
}

/// Vertical rule 1: equal character smushing.
pub fn vrule1_smush(c1: u8, c2: u8) -> (r: Option<u8>)
    ensures
        r == spec_vrule1(c1, c2),
{
    if c1 == c2 {
        Some(c1)
    } else {
        None
    }
}

/// Vertical rule 2: underscore smushing, as horizontal rule 2.
pub fn vrule2_smush(c1: u8, c2: u8) -> (r: Option<u8>)
    ensures
        r == spec_hrule2(c1, c2),
{
    hrule2_smush(c1, c2)
}

/// Vertical rule 3: hierarchy smushing, as horizontal rule 3.
pub fn vrule3_smush(c1: u8, c2: u8) -> (r: Option<u8>)
    ensures
        r == spec_hrule3(c1, c2),
{
    hrule3_smush(c1, c2)
}

/// Vertical rule 4: horizontal line smushing.
pub fn vrule4_smush(c1: u8, c2: u8) -> (r: Option<u8>)
    ensures
        r == spec_vrule4(c1, c2),
{
    if (c1 == MINUS && c2 == UNDERSCORE) || (c1 == UNDERSCORE && c2 == MINUS) {
        Some(EQUALS)
    } else {
        None
    }
}

/// Vertical rule 5: vertical line supersmushing.
pub fn vrule5_smush(c1: u8, c2: u8) -> (r: Option<u8>)
    ensures
        r == spec_vrule5(c1, c2),
{
    if c1 == BAR && c2 == BAR {
        Some(BAR)
    } else {
        None
    }
}

} // verus!
