//! The layout decisions: what two colliding sub-characters become under a
//! font's fitting rules, how far two rows may be pushed into each other, and
//! whether two stacked rows may merge.

use vstd::prelude::*;
use vstd::utf8::{length_of_first_scalar, pop_first_scalar, valid_utf8};
use crate::alphabet::Char;
use crate::font::{FittingRules, Layout, RulesModel};
use crate::smush::{
    hrule1_smush, hrule2_smush, hrule3_smush, hrule4_smush, hrule5_smush, hrule6_smush,
    spec_hrule1, spec_hrule2, spec_hrule3, spec_hrule4, spec_hrule5, spec_hrule6, spec_uni_smush,
    spec_vrule1, spec_vrule4, spec_vrule5, uni_smush, vrule1_smush, vrule2_smush, vrule3_smush,
    vrule4_smush, vrule5_smush, SPACE,
};

verus! {

/// A byte that no well-formed UTF-8 text holds.
pub const NO_SUB_CHARACTER: u8 = 0xff;

/// The byte by which the rules know a font's hard blank among the
/// sub-characters of a row. A hard blank of one byte is that byte. A wider
/// one is no sub-character of any row, and the rules get a byte for it that
/// no row holds.
pub open spec fn spec_hard_blank_byte(hard_blank: char) -> u8 {
    if (hard_blank as u32) < 0x80 {
        hard_blank as u8
    } else {
        NO_SUB_CHARACTER
    }
}

/// The byte by which the rules know a font's hard blank.
pub fn hard_blank_byte(hard_blank: char) -> (r: u8)
    ensures
        r == spec_hard_blank_byte(hard_blank),
{
    if (hard_blank as u32) < 0x80 {
        hard_blank as u8
    } else {
        NO_SUB_CHARACTER
    }
}

/// No row holds the byte that stands for a wide hard blank.
pub proof fn lemma_text_holds_no_filler(text: Seq<u8>)
    requires
        valid_utf8(text),
    ensures
        forall|i: int| 0 <= i < text.len() ==> #[trigger] text[i] != NO_SUB_CHARACTER,
    decreases text.len(),
{
    if text.len() > 0 {
        let n = length_of_first_scalar(text);
        let rest = pop_first_scalar(text);
        assert(1 <= n <= text.len());
        lemma_text_holds_no_filler(rest);
        assert forall|i: int| 0 <= i < text.len() implies #[trigger] text[i]
            != NO_SUB_CHARACTER by {
            if i >= n {
                assert(rest[i - n] == text[i]);
            }
        }
    }
}

/// Whether the rule with number `n`, counted from 1, is switched on.
pub open spec fn rule_on(switches: Seq<bool>, n: int) -> bool {
    1 <= n <= switches.len() && switches[n - 1]
}

/// Whether no rule is switched on. Smushing is then universal; with a rule
/// switched on it is controlled.
pub open spec fn no_rule_on(switches: Seq<bool>) -> bool {
    forall|n: int| 1 <= n <= switches.len() ==> !rule_on(switches, n)
}

/// The horizontal rules in the order of their numbers: the first rule that
/// is switched on and applies to the pair decides.
pub open spec fn spec_hcascade(switches: Seq<bool>, c1: u8, c2: u8, hard_blank: u8) -> Option<u8> {
    if rule_on(switches, 1) && spec_hrule1(c1, c2, hard_blank) is Some {
        spec_hrule1(c1, c2, hard_blank)
    } else if rule_on(switches, 2) && spec_hrule2(c1, c2) is Some {
        spec_hrule2(c1, c2)
    } else if rule_on(switches, 3) && spec_hrule3(c1, c2) is Some {
        spec_hrule3(c1, c2)
    } else if rule_on(switches, 4) && spec_hrule4(c1, c2) is Some {
        spec_hrule4(c1, c2)
    } else if rule_on(switches, 5) && spec_hrule5(c1, c2) is Some {
        spec_hrule5(c1, c2)
    } else if rule_on(switches, 6) && spec_hrule6(c1, c2, hard_blank) is Some {
        spec_hrule6(c1, c2, hard_blank)
    } else {
        None
    }
}

/// The vertical rules in the order of their numbers: the first rule that is
/// switched on and applies to the pair decides.
pub open spec fn spec_vcascade(switches: Seq<bool>, c1: u8, c2: u8) -> Option<u8> {
    if rule_on(switches, 1) && spec_vrule1(c1, c2) is Some {
        spec_vrule1(c1, c2)
    } else if rule_on(switches, 2) && spec_hrule2(c1, c2) is Some {
        spec_hrule2(c1, c2)
    } else if rule_on(switches, 3) && spec_hrule3(c1, c2) is Some {
        spec_hrule3(c1, c2)
    } else if rule_on(switches, 4) && spec_vrule4(c1, c2) is Some {
        spec_vrule4(c1, c2)
    } else if rule_on(switches, 5) && spec_vrule5(c1, c2) is Some {
        spec_vrule5(c1, c2)
    } else {
        None
    }
}

/// What two sub-characters that collide side by side become, or `None`
/// where they cannot share a column.
///
/// Only smushing merges. Universal smushing merges every pair by the
/// universal rule; controlled smushing merges the pairs that a rule of the
/// cascade takes.
pub open spec fn spec_hsmush(rules: RulesModel, c1: u8, c2: u8, hard_blank: u8) -> Option<u8> {
    if rules.hlayout != Layout::Smushing {
        None
    } else if no_rule_on(rules.hrules) {
        Some(spec_uni_smush(c1, c2, hard_blank))
    } else {
        spec_hcascade(rules.hrules, c1, c2, hard_blank)
    }
}

/// Whether any of the six horizontal rules is switched on.
fn any_hrule(rules: &FittingRules) -> (r: bool)
    ensures
        r == !no_rule_on(rules@.hrules),
{
    let on = rules.hrules();
    proof {
        rules.lemma_rule_counts();
        let s = rules@.hrules;
        assert(rule_on(s, 1) == s[0] && rule_on(s, 2) == s[1] && rule_on(s, 3) == s[2]);
        assert(rule_on(s, 4) == s[3] && rule_on(s, 5) == s[4] && rule_on(s, 6) == s[5]);
    }
    on[0] || on[1] || on[2] || on[3] || on[4] || on[5]
}

/// Whether any of the five vertical rules is switched on.
fn any_vrule(rules: &FittingRules) -> (r: bool)
    ensures
        r == !no_rule_on(rules@.vrules),
{
    let on = rules.vrules();
    proof {
        rules.lemma_rule_counts();
        let s = rules@.vrules;
        assert(rule_on(s, 1) == s[0] && rule_on(s, 2) == s[1] && rule_on(s, 3) == s[2]);
        assert(rule_on(s, 4) == s[3] && rule_on(s, 5) == s[4]);
    }
    on[0] || on[1] || on[2] || on[3] || on[4]
}

/// Applies the horizontal rules that are switched on, in the order of their
/// numbers, and stops at the first that takes the pair.
pub fn hcascade(rules: &FittingRules, c1: u8, c2: u8, hard_blank: u8) -> (r: Option<u8>)
    ensures
        r == spec_hcascade(rules@.hrules, c1, c2, hard_blank),
{
    let on = rules.hrules();
    proof {
        rules.lemma_rule_counts();
    }
    if on[0] {
        let s = hrule1_smush(c1, c2, hard_blank);
        if s.is_some() {
            return s;
        }
    }
    if on[1] {
        let s = hrule2_smush(c1, c2);
        if s.is_some() {
            return s;
        }
    }
    if on[2] {
        let s = hrule3_smush(c1, c2);
        if s.is_some() {
            return s;
        }
    }
    if on[3] {
        let s = hrule4_smush(c1, c2);
        if s.is_some() {
            return s;
        }
    }
    if on[4] {
        let s = hrule5_smush(c1, c2);
        if s.is_some() {
            return s;
        }
    }
    if on[5] {
        let s = hrule6_smush(c1, c2, hard_blank);
        if s.is_some() {
            return s;
        }
    }
    None
}

/// Applies the vertical rules that are switched on, in the order of their
/// numbers, and stops at the first that takes the pair.
pub fn vcascade(rules: &FittingRules, c1: u8, c2: u8) -> (r: Option<u8>)
    ensures
        r == spec_vcascade(rules@.vrules, c1, c2),
{
    let on = rules.vrules();
    proof {
        rules.lemma_rule_counts();
    }
    if on[0] {
        let s = vrule1_smush(c1, c2);
        if s.is_some() {
            return s;
        }
    }
    if on[1] {
        let s = vrule2_smush(c1, c2);
        if s.is_some() {
            return s;
        }
    }
    if on[2] {
        let s = vrule3_smush(c1, c2);
        if s.is_some() {
            return s;
        }
    }
    if on[3] {
        let s = vrule4_smush(c1, c2);
        if s.is_some() {
            return s;
        }
    }
    if on[4] {
        let s = vrule5_smush(c1, c2);
        if s.is_some() {
            return s;
        }
    }
    None
}

/// What two sub-characters that collide side by side become under `rules`.
pub fn hsmush(rules: &FittingRules, c1: u8, c2: u8, hard_blank: u8) -> (r: Option<u8>)
    ensures
        r == spec_hsmush(rules@, c1, c2, hard_blank),
{
    match rules.hlayout() {
        Layout::Smushing => {
            if any_hrule(rules) {
                hcascade(rules, c1, c2, hard_blank)
            } else {
                Some(uni_smush(c1, c2, hard_blank))
            }
        },
        _ => None,
    }
}

/// The sub-character of the left row in column `i` of an overlap that is
/// `d` columns wide: the overlap covers the last `d` columns of the left row
/// and the first `d` columns of the right row.
pub open spec fn left_at(t1: Seq<u8>, d: int, i: int) -> u8 {
    t1[t1.len() - d + i]
}

/// Whether both rows hold something other than a space in column `i` of an
/// overlap of `d` columns.
pub open spec fn collides(t1: Seq<u8>, t2: Seq<u8>, d: int, i: int) -> bool {
    left_at(t1, d, i) != SPACE && t2[i] != SPACE
}

/// Whether the rows collide somewhere in an overlap of `d` columns.
pub open spec fn touches_at(t1: Seq<u8>, t2: Seq<u8>, d: int) -> bool {
    exists|i: int| 0 <= i < d && collides(t1, t2, d, i)
}

/// Whether every collision in an overlap of `d` columns can be merged.
pub open spec fn smushable_at(
    rules: RulesModel,
    hard_blank: u8,
    t1: Seq<u8>,
    t2: Seq<u8>,
    d: int,
) -> bool {
    forall|i: int|
        0 <= i < d && #[trigger] collides(t1, t2, d, i) ==> spec_hsmush(
            rules,
            left_at(t1, d, i),
            t2[i],
            hard_blank,
        ) is Some
}

/// The widest overlap that is ever tried: the length of the shorter row.
pub open spec fn reach(t1: Seq<u8>, t2: Seq<u8>) -> int {
    if t1.len() <= t2.len() {
        t1.len() as int
    } else {
        t2.len() as int
    }
}

/// The overlap that the search settles on when it has found no collision in
/// any overlap narrower than `d`.
///
/// The first width at which the rows collide decides: it is the answer if
/// every collision there can be merged, and one less if not. Without any
/// collision the rows overlap over the whole reach.
pub open spec fn overlap_from(
    rules: RulesModel,
    hard_blank: u8,
    t1: Seq<u8>,
    t2: Seq<u8>,
    d: int,
) -> int
    decreases reach(t1, t2) + 1 - d,
{
    if d < 1 || d > reach(t1, t2) {
        reach(t1, t2)
    } else if touches_at(t1, t2, d) {
        if smushable_at(rules, hard_blank, t1, t2, d) {
            d
        } else {
            d - 1
        }
    } else {
        overlap_from(rules, hard_blank, t1, t2, d + 1)
    }
}

/// How many columns the right row may be pushed into the left row. Full
/// width pushes nothing.
pub open spec fn spec_row_overlap(
    rules: RulesModel,
    hard_blank: u8,
    t1: Seq<u8>,
    t2: Seq<u8>,
) -> int {
    if rules.hlayout == Layout::FullWidth {
        0
    } else {
        overlap_from(rules, hard_blank, t1, t2, 1)
    }
}

/// The row overlap stays within the shorter row; nothing collides in any
/// narrower overlap; and whatever collides in the overlap itself can be
/// merged.
pub proof fn lemma_row_overlap_is_legal(
    rules: RulesModel,
    hard_blank: u8,
    t1: Seq<u8>,
    t2: Seq<u8>,
)
    ensures
        0 <= spec_row_overlap(rules, hard_blank, t1, t2) <= reach(t1, t2),
        forall|d: int|
            1 <= d < spec_row_overlap(rules, hard_blank, t1, t2) ==> !#[trigger] touches_at(
                t1,
                t2,
                d,
            ),
        smushable_at(rules, hard_blank, t1, t2, spec_row_overlap(rules, hard_blank, t1, t2)),
{
    if rules.hlayout != Layout::FullWidth {
        lemma_overlap_from_is_legal(rules, hard_blank, t1, t2, 1);
    }
}

/// The same of a search that has come to width `d` without a collision.
proof fn lemma_overlap_from_is_legal(
    rules: RulesModel,
    hard_blank: u8,
    t1: Seq<u8>,
    t2: Seq<u8>,
    d: int,
)
    requires
        1 <= d,
        forall|e: int| 1 <= e < d ==> !#[trigger] touches_at(t1, t2, e),
    ensures
        0 <= overlap_from(rules, hard_blank, t1, t2, d) <= reach(t1, t2),
        forall|e: int|
            1 <= e < overlap_from(rules, hard_blank, t1, t2, d) ==> !#[trigger] touches_at(
                t1,
                t2,
                e,
            ),
        smushable_at(rules, hard_blank, t1, t2, overlap_from(rules, hard_blank, t1, t2, d)),
    decreases reach(t1, t2) + 1 - d,
{
    if d > reach(t1, t2) {
        if reach(t1, t2) >= 1 {
            assert(!touches_at(t1, t2, reach(t1, t2)));
        }
    } else if touches_at(t1, t2, d) {
        if !smushable_at(rules, hard_blank, t1, t2, d) && d > 1 {
            assert(!touches_at(t1, t2, d - 1));
        }
    } else {
        lemma_overlap_from_is_legal(rules, hard_blank, t1, t2, d + 1);
    }
}

/// How many spaces a row ends with.
pub open spec fn trailing_blanks(t: Seq<u8>) -> nat
    decreases t.len(),
{
    if t.len() > 0 && t.last() == SPACE {
        1 + trailing_blanks(t.drop_last())
    } else {
        0
    }
}

/// How many spaces a row starts with.
pub open spec fn leading_blanks(t: Seq<u8>) -> nat
    decreases t.len(),
{
    if t.len() > 0 && t[0] == SPACE {
        1 + leading_blanks(t.drop_first())
    } else {
        0
    }
}

/// The width at which the last solid sub-character of the left row meets
/// the first solid sub-character of the right row.
pub open spec fn meeting_width(t1: Seq<u8>, t2: Seq<u8>) -> int {
    (trailing_blanks(t1) + leading_blanks(t2) + 1) as int
}

/// The spaces that a row ends with are spaces, and what stands before them
/// is none.
proof fn lemma_trailing_blanks(t: Seq<u8>)
    ensures
        trailing_blanks(t) <= t.len(),
        forall|i: int| t.len() - trailing_blanks(t) <= i < t.len() ==> t[i] == SPACE,
        trailing_blanks(t) < t.len() ==> t[t.len() - 1 - trailing_blanks(t)] != SPACE,
    decreases t.len(),
{
    if t.len() > 0 && t.last() == SPACE {
        let rest = t.drop_last();
        lemma_trailing_blanks(rest);
        assert forall|i: int| t.len() - trailing_blanks(t) <= i < t.len() implies t[i]
            == SPACE by {
            if i < t.len() - 1 {
                assert(rest[i] == SPACE);
            }
        }
    }
}

/// The spaces that a row starts with are spaces, and what follows them is
/// none.
proof fn lemma_leading_blanks(t: Seq<u8>)
    ensures
        leading_blanks(t) <= t.len(),
        forall|i: int| 0 <= i < leading_blanks(t) ==> t[i] == SPACE,
        leading_blanks(t) < t.len() ==> t[leading_blanks(t) as int] != SPACE,
    decreases t.len(),
{
    if t.len() > 0 && t[0] == SPACE {
        let rest = t.drop_first();
        lemma_leading_blanks(rest);
        assert forall|i: int| 0 <= i < leading_blanks(t) implies t[i] == SPACE by {
            if i > 0 {
                assert(rest[i - 1] == SPACE);
            }
        }
    }
}

/// The rows collide in no overlap narrower than their meeting width, and at
/// the meeting width they collide in one column only: that of the two
/// sub-characters that meet.
proof fn lemma_meeting(t1: Seq<u8>, t2: Seq<u8>)
    ensures
        forall|d: int|
            1 <= d <= reach(t1, t2) && d < meeting_width(t1, t2) ==> !#[trigger] touches_at(
                t1,
                t2,
                d,
            ),
        meeting_width(t1, t2) <= reach(t1, t2) ==> {
            let m = meeting_width(t1, t2);
            let at = leading_blanks(t2) as int;
            &&& collides(t1, t2, m, at)
            &&& left_at(t1, m, at) == t1[t1.len() - 1 - trailing_blanks(t1)]
            &&& forall|i: int| 0 <= i < m && i != at ==> !collides(t1, t2, m, i)
        },
{
    lemma_trailing_blanks(t1);
    lemma_leading_blanks(t2);
    let tb = trailing_blanks(t1) as int;
    let lb = leading_blanks(t2) as int;
    assert forall|d: int| 1 <= d <= reach(t1, t2) && d < meeting_width(t1, t2) implies !touches_at(
        t1,
        t2,
        d,
    ) by {
        assert forall|i: int| 0 <= i < d implies !collides(t1, t2, d, i) by {
            if i >= lb {
                assert(t1[t1.len() - d + i] == SPACE);
            }
        }
    }
    if meeting_width(t1, t2) <= reach(t1, t2) {
        let m = meeting_width(t1, t2);
        assert forall|i: int| 0 <= i < m && i != lb implies !collides(t1, t2, m, i) by {
            if i > lb {
                assert(t1[t1.len() - m + i] == SPACE);
            }
        }
    }
}

/// The search passes every width below the meeting width.
proof fn lemma_overlap_from_meeting(
    rules: RulesModel,
    hard_blank: u8,
    t1: Seq<u8>,
    t2: Seq<u8>,
    d: int,
)
    requires
        1 <= d,
        d <= meeting_width(t1, t2),
    ensures
        overlap_from(rules, hard_blank, t1, t2, d) == overlap_from(
            rules,
            hard_blank,
            t1,
            t2,
            meeting_width(t1, t2),
        ),
    decreases meeting_width(t1, t2) - d,
{
    if d < meeting_width(t1, t2) {
        lemma_meeting(t1, t2);
        if d <= reach(t1, t2) {
            assert(!touches_at(t1, t2, d));
        }
        lemma_overlap_from_meeting(rules, hard_blank, t1, t2, d + 1);
    }
}

/// The row overlap in closed form. The rows slide together over their
/// blank margins. If the shorter row is used up before two solid
/// sub-characters meet, the overlap is its length. Else the two that meet
/// decide: if they can be merged the overlap takes their column in, and if
/// not it ends right before it.
pub proof fn lemma_row_overlap_at_meeting(
    rules: RulesModel,
    hard_blank: u8,
    t1: Seq<u8>,
    t2: Seq<u8>,
)
    ensures
        spec_row_overlap(rules, hard_blank, t1, t2) == if rules.hlayout == Layout::FullWidth {
            0
        } else if meeting_width(t1, t2) > reach(t1, t2) {
            reach(t1, t2)
        } else if spec_hsmush(
            rules,
            t1[t1.len() - 1 - trailing_blanks(t1)],
            t2[leading_blanks(t2) as int],
            hard_blank,
        ) is Some {
            meeting_width(t1, t2)
        } else {
            meeting_width(t1, t2) - 1
        },
{
    if rules.hlayout != Layout::FullWidth {
        let m = meeting_width(t1, t2);
        lemma_overlap_from_meeting(rules, hard_blank, t1, t2, 1);
        lemma_meeting(t1, t2);
        if m <= reach(t1, t2) {
            assert(touches_at(t1, t2, m));
        }
    }
}

/// How many columns the right row may be pushed into the left row.
pub fn row_overlap(rules: &FittingRules, hard_blank: u8, txt1: &[u8], txt2: &[u8]) -> (r: usize)
    ensures
        r == spec_row_overlap(rules@, hard_blank, txt1@, txt2@),
{
    match rules.hlayout() {
        Layout::FullWidth => {
            return 0;
        },
        _ => {},
    }
    let len1: usize = txt1.len();
    let len2: usize = txt2.len();
    let max: usize = if len1 <= len2 { len1 } else { len2 };
    let mut d: usize = 1;
    while d <= max
        invariant
            1 <= d,
            rules@.hlayout != Layout::FullWidth,
            len1 == txt1@.len(),
            len2 == txt2@.len(),
            max == reach(txt1@, txt2@),
            overlap_from(rules@, hard_blank, txt1@, txt2@, 1) == overlap_from(
                rules@,
                hard_blank,
                txt1@,
                txt2@,
                d as int,
            ),
        decreases max + 1 - d,
    {
        let mut touched = false;
        let mut ok = true;
        let mut i: usize = 0;
        while i < d
            invariant
                1 <= d <= max,
                i <= d,
                len1 == txt1@.len(),
                len2 == txt2@.len(),
                max == reach(txt1@, txt2@),
                touched <==> exists|j: int| 0 <= j < i && collides(txt1@, txt2@, d as int, j),
                ok <==> forall|j: int|
                    0 <= j < i && #[trigger] collides(txt1@, txt2@, d as int, j) ==> spec_hsmush(
                        rules@,
                        left_at(txt1@, d as int, j),
                        txt2@[j],
                        hard_blank,
                    ) is Some,
            decreases d - i,
        {
            let c1: u8 = txt1[len1 - d + i];
            let c2: u8 = txt2[i];
            assert(c1 == left_at(txt1@, d as int, i as int));
            if c1 != SPACE && c2 != SPACE {
                assert(collides(txt1@, txt2@, d as int, i as int));
                touched = true;
                if hsmush(rules, c1, c2, hard_blank).is_none() {
                    ok = false;
                }
            }
            i = i + 1;
        }
        if touched {
            return if ok { d } else { d - 1 };
        }
        if d == max {
            assert(overlap_from(rules@, hard_blank, txt1@, txt2@, d + 1) == max);
            return max;
        }
        d = d + 1;
    }
    max
}

/// Whether `r` is the overlap of two glyphs: the least overlap of their
/// rows, taken pair by pair from the top as far as both glyphs have rows,
/// and 0 where there is no such pair.
pub open spec fn is_glyph_overlap(
    rules: RulesModel,
    hard_blank: u8,
    left: Seq<Seq<u8>>,
    right: Seq<Seq<u8>>,
    r: int,
) -> bool {
    let n = if left.len() <= right.len() { left.len() } else { right.len() };
    if n == 0 {
        r == 0
    } else {
        &&& forall|i: int|
            0 <= i < n ==> r <= #[trigger] spec_row_overlap(rules, hard_blank, left[i], right[i])
        &&& exists|i: int|
            0 <= i < n && r == #[trigger] spec_row_overlap(rules, hard_blank, left[i], right[i])
    }
}

/// How many columns the right glyph may be pushed into the left glyph: as
/// many as every pair of rows allows.
pub fn glyph_overlap(rules: &FittingRules, hard_blank: u8, left: &Char, right: &Char) -> (r: usize)
    ensures
        is_glyph_overlap(rules@, hard_blank, left@, right@, r as int),
{
    let n1: usize = left.0.len();
    let n2: usize = right.0.len();
    let n: usize = if n1 <= n2 { n1 } else { n2 };
    if n == 0 {
        return 0;
    }
    let mut best: usize = row_overlap(
        rules,
        hard_blank,
        left.0[0].as_str().as_bytes(),
        right.0[0].as_str().as_bytes(),
    );
    assert(best == spec_row_overlap(rules@, hard_blank, left@[0], right@[0]));
    let mut i: usize = 1;
    while i < n
        invariant
            1 <= i <= n,
            n <= left.0@.len(),
            n <= right.0@.len(),
            forall|j: int|
                0 <= j < i ==> best <= #[trigger] spec_row_overlap(
                    rules@,
                    hard_blank,
                    left@[j],
                    right@[j],
                ),
            exists|j: int|
                0 <= j < i && best == #[trigger] spec_row_overlap(
                    rules@,
                    hard_blank,
                    left@[j],
                    right@[j],
                ),
        decreases n - i,
    {
        let o: usize = row_overlap(
            rules,
            hard_blank,
            left.0[i].as_str().as_bytes(),
            right.0[i].as_str().as_bytes(),
        );
        assert(o == spec_row_overlap(rules@, hard_blank, left@[i as int], right@[i as int]));
        if o < best {
            best = o;
        }
        i = i + 1;
    }
    best
}

/// Whether two stacked rows may merge.
#[derive(Copy, Clone, Debug, PartialEq, Eq, Structural)]
pub enum SmushStatus {
    /// The rows may merge, and the rows beyond them may be tried.
    Valid,
    /// The rows may merge, and the merging stops here.
    End,
    /// The rows stay apart.
    Invalid,
}

/// Whether both rows hold something other than a space in column `i`.
pub open spec fn stacked(t1: Seq<u8>, t2: Seq<u8>, i: int) -> bool {
    t1[i] != SPACE && t2[i] != SPACE
}

/// Whether a pair of vertical bars slides on: rule 5 is switched on and
/// takes the pair.
pub open spec fn supersmushes(rules: RulesModel, c1: u8, c2: u8) -> bool {
    rule_on(rules.vrules, 5) && spec_vrule5(c1, c2) is Some
}

/// The verdict on two stacked rows, `t1` above `t2`, over the columns that
/// both have.
///
/// Full width never merges, and nothing merges with an empty row. Rows
/// that collide nowhere merge freely. Where they collide, fitting keeps
/// them apart and universal smushing merges them and stops. Controlled
/// smushing keeps them apart if some collision is taken by no rule; else
/// it merges them, and stops unless every collision is a pair of vertical
/// bars that slides on.
pub open spec fn spec_can_vertical_smush(rules: RulesModel, t1: Seq<u8>, t2: Seq<u8>) -> SmushStatus {
    let n = reach(t1, t2);
    if rules.vlayout == Layout::FullWidth || n == 0 {
        SmushStatus::Invalid
    } else if !(exists|i: int| 0 <= i < n && stacked(t1, t2, i)) {
        SmushStatus::Valid
    } else if rules.vlayout == Layout::Fitting {
        SmushStatus::Invalid
    } else if no_rule_on(rules.vrules) {
        SmushStatus::End
    } else if exists|i: int|
        0 <= i < n && #[trigger] stacked(t1, t2, i) && spec_vcascade(rules.vrules, t1[i], t2[i])
            is None {
        SmushStatus::Invalid
    } else if exists|i: int|
        0 <= i < n && #[trigger] stacked(t1, t2, i) && !supersmushes(rules, t1[i], t2[i]) {
        SmushStatus::End
    } else {
        SmushStatus::Valid
    }
}

/// Decides whether two stacked rows, `txt1` above `txt2`, may merge.
pub fn vertical_verdict(rules: &FittingRules, txt1: &[u8], txt2: &[u8]) -> (r: SmushStatus)
    ensures
        r == spec_can_vertical_smush(rules@, txt1@, txt2@),
{
    let len1: usize = txt1.len();
    let len2: usize = txt2.len();
    let n: usize = if len1 <= len2 { len1 } else { len2 };
    let mode = rules.vlayout();
    match mode {
        Layout::FullWidth => {
            return SmushStatus::Invalid;
        },
        _ => {},
    }
    if n == 0 {
        return SmushStatus::Invalid;
    }
    let controlled = any_vrule(rules);
    let sliding = rules.vrules()[4];
    proof {
        rules.lemma_rule_counts();
    }
    let mut touched = false;
    let mut refused = false;
    let mut ending = false;
    let mut i: usize = 0;
    while i < n
        invariant
            i <= n,
            n == reach(txt1@, txt2@),
            sliding == rule_on(rules@.vrules, 5),
            touched <==> exists|j: int| 0 <= j < i && stacked(txt1@, txt2@, j),
            refused <==> exists|j: int|
                0 <= j < i && #[trigger] stacked(txt1@, txt2@, j) && spec_vcascade(
                    rules@.vrules,
                    txt1@[j],
                    txt2@[j],
                ) is None,
            ending <==> exists|j: int|
                0 <= j < i && #[trigger] stacked(txt1@, txt2@, j) && !supersmushes(
                    rules@,
                    txt1@[j],
                    txt2@[j],
                ),
        decreases n - i,
    {
        let c1: u8 = txt1[i];
        let c2: u8 = txt2[i];
        if c1 != SPACE && c2 != SPACE {
            assert(stacked(txt1@, txt2@, i as int));
            touched = true;
            if vcascade(rules, c1, c2).is_none() {
                refused = true;
            }
            if !(sliding && vrule5_smush(c1, c2).is_some()) {
                ending = true;
            }
        }
        i = i + 1;
    }
    if !touched {
        SmushStatus::Valid
    } else {
        match mode {
            Layout::Fitting => SmushStatus::Invalid,
            _ => if !controlled {
                SmushStatus::End
            } else if refused {
                SmushStatus::Invalid
            } else if ending {
                SmushStatus::End
            } else {
                SmushStatus::Valid
            },
        }
    }
}

} // verus!
