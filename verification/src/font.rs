//! The font model: the header's scalars, the fitting rules that the header's
//! layout fields resolve to, and the glyph table.

use vstd::prelude::*;
use vstd::slice::slice_to_vec;
use vstd::string::{StrSliceExecFns, StringSliceAdditionalSpecFns};
use vstd::utf8::{
    decode_utf8, encode_utf8, encode_utf8_valid_utf8, is_ascii_chars, is_ascii_chars_encode_utf8,
    valid_utf8, valid_utf8_concat,
};
use crate::alphabet::{
    code_at, code_index, is_supported, lemma_code_order, Alphabet, Char, GLYPH_COUNT,
};
use crate::flags::{
    flag_set, lemma_truncate_keeps_flags, lemma_zero_holds_no_flag, RuleFlags, ALL_FLAGS,
    HLAYOUT_FIT, HLAYOUT_SMUSH, HRULE1, HRULE2, HRULE3, HRULE4, HRULE5, HRULE6, VLAYOUT_FIT,
    VLAYOUT_SMUSH, VRULE1, VRULE2, VRULE3, VRULE4, VRULE5,
};
use crate::layout::{
    glyph_overlap, hard_blank_byte, is_glyph_overlap, row_overlap, spec_can_vertical_smush,
    spec_hard_blank_byte, spec_row_overlap, vertical_verdict, SmushStatus,
};
use crate::text::{
    contents, lemma_lines_are_text, lemma_split_keeps_text, lemma_split_nonempty, lines, parse_signed, parse_unsigned,
    read_signed, read_unsigned, row_content, split, split_bytes, split_lines, strip_row, text_of,
    BLANK, NEWLINE,
};

verus! {

/// How glyphs are placed along one axis.
#[derive(Copy, Clone, Debug, PartialEq, Eq, Structural)]
pub enum Layout {
    /// Edge to edge, nothing overlaps.
    FullWidth,
    /// Moved together until they touch; no sub-character is merged.
    Fitting,
    /// Moved together, and the touching sub-characters merged by rule.
    Smushing,
}

impl Default for Layout {
    fn default() -> (r: Layout)
        ensures
            r == Layout::FullWidth,
    {
        Layout::FullWidth
    }
}

/// What a `FittingRules` holds: the mode of each axis, six horizontal rule
/// switches and five vertical ones, each at the rule's number less one.
pub struct RulesModel {
    pub hlayout: Layout,
    pub vlayout: Layout,
    pub hrules: Seq<bool>,
    pub vrules: Seq<bool>,
}

/// The layout mode that two mode bits choose: smushing wins over fitting.
pub open spec fn layout_of(bits: u16, smush: u16, fit: u16) -> Layout {
    if flag_set(bits, smush) {
        Layout::Smushing
    } else if flag_set(bits, fit) {
        Layout::Fitting
    } else {
        Layout::FullWidth
    }
}

/// The horizontal rule switches of a bit pattern.
pub open spec fn hrules_of(bits: u16) -> Seq<bool> {
    seq![
        flag_set(bits, HRULE1),
        flag_set(bits, HRULE2),
        flag_set(bits, HRULE3),
        flag_set(bits, HRULE4),
        flag_set(bits, HRULE5),
        flag_set(bits, HRULE6),
    ]
}

/// The vertical rule switches of a bit pattern.
pub open spec fn vrules_of(bits: u16) -> Seq<bool> {
    seq![
        flag_set(bits, VRULE1),
        flag_set(bits, VRULE2),
        flag_set(bits, VRULE3),
        flag_set(bits, VRULE4),
        flag_set(bits, VRULE5),
    ]
}

/// The low 16 bits of a legacy layout value, in two's complement.
pub open spec fn legacy_bits(old: i8) -> u16 {
    if old >= 0 {
        old as u16
    } else {
        (old + 0x1_0000) as u16
    }
}

/// The fitting rules of a header: from the bit field where the header has
/// one, else from the legacy value, which knows horizontal rules only.
pub open spec fn resolve(oldflags: i8, newflags: Option<u16>) -> RulesModel {
    match newflags {
        Some(bits) => RulesModel {
            hlayout: layout_of(bits, HLAYOUT_SMUSH, HLAYOUT_FIT),
            vlayout: layout_of(bits, VLAYOUT_SMUSH, VLAYOUT_FIT),
            hrules: hrules_of(bits),
            vrules: vrules_of(bits),
        },
        None => if oldflags == -1 {
            RulesModel {
                hlayout: Layout::FullWidth,
                vlayout: Layout::FullWidth,
                hrules: Seq::new(6, |i: int| false),
                vrules: Seq::new(5, |i: int| false),
            }
        } else if oldflags == 0 {
            RulesModel {
                hlayout: Layout::Fitting,
                vlayout: Layout::FullWidth,
                hrules: Seq::new(6, |i: int| false),
                vrules: Seq::new(5, |i: int| false),
            }
        } else {
            RulesModel {
                hlayout: Layout::Smushing,
                vlayout: Layout::FullWidth,
                hrules: hrules_of(legacy_bits(oldflags)),
                vrules: Seq::new(5, |i: int| false),
            }
        },
    }
}

/// The normalized fitting rules of a font. Mode and switches come out of one
/// pass over the header and are not changed afterwards.
#[derive(Debug)]
pub struct FittingRules {
    hlayout: Layout,
    vlayout: Layout,
    hrules: [bool; 6],
    vrules: [bool; 5],
}

impl View for FittingRules {
    type V = RulesModel;

    closed spec fn view(&self) -> RulesModel {
        RulesModel {
            hlayout: self.hlayout,
            vlayout: self.vlayout,
            hrules: self.hrules@,
            vrules: self.vrules@,
        }
    }
}

/// The empty bit pattern switches no rule on.
proof fn lemma_no_switch_in_zero()
    ensures
        hrules_of(0) == Seq::new(6, |i: int| false),
        vrules_of(0) == Seq::new(5, |i: int| false),
{
    lemma_zero_holds_no_flag(HRULE1);
    lemma_zero_holds_no_flag(HRULE2);
    lemma_zero_holds_no_flag(HRULE3);
    lemma_zero_holds_no_flag(HRULE4);
    lemma_zero_holds_no_flag(HRULE5);
    lemma_zero_holds_no_flag(HRULE6);
    lemma_zero_holds_no_flag(VRULE1);
    lemma_zero_holds_no_flag(VRULE2);
    lemma_zero_holds_no_flag(VRULE3);
    lemma_zero_holds_no_flag(VRULE4);
    lemma_zero_holds_no_flag(VRULE5);
    assert(hrules_of(0) =~= Seq::new(6, |i: int| false));
    assert(vrules_of(0) =~= Seq::new(5, |i: int| false));
}

/// The bit without a meaning switches no rule.
proof fn lemma_switches_ignore_top_bit(bits: u16)
    ensures
        hrules_of(bits & ALL_FLAGS) == hrules_of(bits),
        vrules_of(bits & ALL_FLAGS) == vrules_of(bits),
{
    lemma_truncate_keeps_flags(bits, HRULE1);
    lemma_truncate_keeps_flags(bits, HRULE2);
    lemma_truncate_keeps_flags(bits, HRULE3);
    lemma_truncate_keeps_flags(bits, HRULE4);
    lemma_truncate_keeps_flags(bits, HRULE5);
    lemma_truncate_keeps_flags(bits, HRULE6);
    lemma_truncate_keeps_flags(bits, VRULE1);
    lemma_truncate_keeps_flags(bits, VRULE2);
    lemma_truncate_keeps_flags(bits, VRULE3);
    lemma_truncate_keeps_flags(bits, VRULE4);
    lemma_truncate_keeps_flags(bits, VRULE5);
    assert(hrules_of(bits & ALL_FLAGS) =~= hrules_of(bits));
    assert(vrules_of(bits & ALL_FLAGS) =~= vrules_of(bits));
}

/// Reads the rule switches of both axes out of the flags.
fn switches(flags: RuleFlags) -> (r: ([bool; 6], [bool; 5]))
    ensures
        r.0@ == hrules_of(flags@),
        r.1@ == vrules_of(flags@),
{
    (
        [
            flags.contains(HRULE1),
            flags.contains(HRULE2),
            flags.contains(HRULE3),
            flags.contains(HRULE4),
            flags.contains(HRULE5),
            flags.contains(HRULE6),
        ],
        [
            flags.contains(VRULE1),
            flags.contains(VRULE2),
            flags.contains(VRULE3),
            flags.contains(VRULE4),
            flags.contains(VRULE5),
        ],
    )
}

impl FittingRules {
    /// Resolves the two layout fields of a header into one set of rules.
    pub fn from_flags(oldflags: i8, newflags: Option<RuleFlags>) -> (r: FittingRules)
        ensures
            r@ == resolve(
                oldflags,
                match newflags {
                    Some(f) => Some(f@),
                    None => None,
                },
            ),
    {
        let hlayout: Layout;
        let vlayout: Layout;
        let flags: RuleFlags;
        if let Some(f) = newflags {
            hlayout = if f.contains(HLAYOUT_SMUSH) {
                Layout::Smushing
            } else if f.contains(HLAYOUT_FIT) {
                Layout::Fitting
            } else {
                Layout::FullWidth
            };
            vlayout = if f.contains(VLAYOUT_SMUSH) {
                Layout::Smushing
            } else if f.contains(VLAYOUT_FIT) {
                Layout::Fitting
            } else {
                Layout::FullWidth
            };
            flags = f;
        } else if oldflags == -1 {
            hlayout = Layout::FullWidth;
            vlayout = Layout::FullWidth;
            flags = RuleFlags::empty();
        } else if oldflags == 0 {
            hlayout = Layout::Fitting;
            vlayout = Layout::FullWidth;
            flags = RuleFlags::empty();
        } else {
            hlayout = Layout::Smushing;
            vlayout = Layout::FullWidth;
            let bits: u16 = #[verifier::truncate] (oldflags as u16);
            proof {
                assert(bits == legacy_bits(oldflags)) by (bit_vector)
                    requires
                        bits == oldflags as u16,
                ;
                lemma_switches_ignore_top_bit(bits);
            }
            flags = RuleFlags::from_bits_truncate(bits);
        }
        proof {
            lemma_no_switch_in_zero();
        }
        let (hrules, read) = switches(flags);
        let vrules: [bool; 5] = if newflags.is_some() {
            read
        } else {
            [false, false, false, false, false]
        };
        assert(newflags is None ==> vrules@ =~= Seq::new(5, |i: int| false));
        FittingRules { hlayout, vlayout, hrules, vrules }
    }
}

impl FittingRules {
    /// The horizontal layout mode.
    pub fn hlayout(&self) -> (r: Layout)
        ensures
            r == self@.hlayout,
    {
        self.hlayout
    }

    /// The vertical layout mode.
    pub fn vlayout(&self) -> (r: Layout)
        ensures
            r == self@.vlayout,
    {
        self.vlayout
    }

    /// The switches of the horizontal rules 1 to 6.
    pub fn hrules(&self) -> (r: [bool; 6])
        ensures
            r@ == self@.hrules,
    {
        self.hrules
    }

    /// The switches of the vertical rules 1 to 5.
    pub fn vrules(&self) -> (r: [bool; 5])
        ensures
            r@ == self@.vrules,
    {
        self.vrules
    }

    /// There are six horizontal switches and five vertical ones.
    pub proof fn lemma_rule_counts(&self)
        ensures
            self@.hrules.len() == 6,
            self@.vrules.len() == 5,
    {
    }
}

impl Default for FittingRules {
    /// Full width on both axes, no rule.
    fn default() -> (r: FittingRules)
        ensures
            r@ == resolve(-1i8, None),
    {
        FittingRules::from_flags(-1, None)
    }
}

/// The bit of the layout field that has no meaning changes nothing.
pub proof fn lemma_resolve_ignores_top_bit(oldflags: i8, bits: u16)
    ensures
        resolve(oldflags, Some(bits & ALL_FLAGS)) == resolve(oldflags, Some(bits)),
{
    lemma_switches_ignore_top_bit(bits);
    lemma_truncate_keeps_flags(bits, HLAYOUT_SMUSH);
    lemma_truncate_keeps_flags(bits, HLAYOUT_FIT);
    lemma_truncate_keeps_flags(bits, VLAYOUT_SMUSH);
    lemma_truncate_keeps_flags(bits, VLAYOUT_FIT);
}

/// With a layout bit field the legacy value counts for nothing, the mode of
/// each axis is smushing wherever its smushing bit is set, whatever its
/// fitting bit says, and the rule switches are the rule bits.
pub proof fn lemma_bit_field_layout(oldflags: i8, other: i8, bits: u16)
    ensures
        resolve(oldflags, Some(bits)) == resolve(other, Some(bits)),
        flag_set(bits, HLAYOUT_SMUSH) ==> resolve(oldflags, Some(bits)).hlayout == Layout::Smushing,
        flag_set(bits, VLAYOUT_SMUSH) ==> resolve(oldflags, Some(bits)).vlayout == Layout::Smushing,
        !flag_set(bits, HLAYOUT_SMUSH) ==> resolve(oldflags, Some(bits)).hlayout == (if flag_set(
            bits,
            HLAYOUT_FIT,
        ) {
            Layout::Fitting
        } else {
            Layout::FullWidth
        }),
        !flag_set(bits, VLAYOUT_SMUSH) ==> resolve(oldflags, Some(bits)).vlayout == (if flag_set(
            bits,
            VLAYOUT_FIT,
        ) {
            Layout::Fitting
        } else {
            Layout::FullWidth
        }),
        resolve(oldflags, Some(bits)).hrules == hrules_of(bits),
        resolve(oldflags, Some(bits)).vrules == vrules_of(bits),
{
}

/// Without a layout bit field the legacy value decides: -1 is full width
/// and 0 is fitting, both without rules; any other value is smushing, with
/// the horizontal rule switches read from its low 16 bits. The vertical
/// axis is full width and has no rule throughout.
pub proof fn lemma_legacy_layout(oldflags: i8)
    ensures
        resolve(oldflags, None).vlayout == Layout::FullWidth,
        resolve(oldflags, None).vrules == Seq::new(5, |i: int| false),
        oldflags == -1 ==> resolve(oldflags, None).hlayout == Layout::FullWidth,
        oldflags == 0 ==> resolve(oldflags, None).hlayout == Layout::Fitting,
        oldflags != -1 && oldflags != 0 ==> resolve(oldflags, None).hlayout == Layout::Smushing,
        oldflags == -1 || oldflags == 0 ==> resolve(oldflags, None).hrules == Seq::new(
            6,
            |i: int| false,
        ),
        oldflags != -1 && oldflags != 0 ==> resolve(oldflags, None).hrules == hrules_of(
            legacy_bits(oldflags),
        ),
{
}

/// Why a font cannot be built or a glyph cannot be had.
#[derive(Copy, Clone, Debug, PartialEq, Eq, Structural)]
pub enum FontError {
    /// The header lacks a field or holds one that cannot be read.
    FontHeaderError,
    /// The text ends before the glyphs are complete, a glyph line has no
    /// terminator, or a comment or a glyph row is not well-formed UTF-8.
    GlyphParseError,
    /// The font has no glyph for the character code asked for.
    UnsupportedCharacterError,
}

/// What a `FontOpts` holds.
pub struct OptsModel {
    pub hard_blank: char,
    pub height: nat,
    pub baseline: nat,
    pub max_len: nat,
    pub num_comment_lines: nat,
    pub print_direction: u8,
    pub code_tag_count: Option<nat>,
    pub fitting_rules: RulesModel,
}

/// The scalars of a font header.
#[derive(Debug)]
pub struct FontOpts {
    pub hard_blank: char,
    pub height: usize,
    pub baseline: usize,
    pub max_len: usize,
    pub num_comment_lines: usize,
    pub print_direction: u8,
    pub code_tag_count: Option<usize>,
    pub fitting_rules: FittingRules,
}

impl View for FontOpts {
    type V = OptsModel;

    open spec fn view(&self) -> OptsModel {
        OptsModel {
            hard_blank: self.hard_blank,
            height: self.height as nat,
            baseline: self.baseline as nat,
            max_len: self.max_len as nat,
            num_comment_lines: self.num_comment_lines as nat,
            print_direction: self.print_direction,
            code_tag_count: match self.code_tag_count {
                Some(n) => Some(n as nat),
                None => None,
            },
            fitting_rules: self.fitting_rules@,
        }
    }
}

impl Default for FontOpts {
    /// No hard blank, no size, full width on both axes.
    fn default() -> (r: FontOpts)
        ensures
            r@ == (OptsModel {
                hard_blank: '\0',
                height: 0,
                baseline: 0,
                max_len: 0,
                num_comment_lines: 0,
                print_direction: 0,
                code_tag_count: None,
                fitting_rules: resolve(-1i8, None),
            }),
    {
        FontOpts {
            hard_blank: '\0',
            height: 0,
            baseline: 0,
            max_len: 0,
            num_comment_lines: 0,
            print_direction: 0,
            code_tag_count: None,
            fitting_rules: FittingRules::default(),
        }
    }
}

/// The hard blank that a header's first field names: the sixth character
/// of the field, read as UTF-8. A field of fewer characters names none, nor
/// does one that is not well-formed UTF-8.
pub open spec fn tag_hard_blank(tag: Seq<u8>) -> Option<char> {
    if valid_utf8(tag) && decode_utf8(tag).len() >= 6 {
        Some(decode_utf8(tag)[5])
    } else {
        None
    }
}

/// An optional numeral at place `i` of the fields: `Some(None)` where the
/// header ends before it, `None` where it is there and cannot be read.
pub open spec fn optional_unsigned(fields: Seq<Seq<u8>>, i: int, max: nat) -> Option<Option<nat>> {
    if i < fields.len() {
        match parse_unsigned(fields[i], max) {
            Some(v) => Some(Some(v)),
            None => None,
        }
    } else {
        Some(None)
    }
}

/// What a header line says, or `None` where a required field is missing or
/// any field cannot be read.
///
/// The fields stand between single spaces: the tag with the hard blank,
/// height, baseline, greatest line length, legacy layout, number of comment
/// lines, and then, each only if the line goes on, print direction, layout
/// bit field and number of code-tagged glyphs.
pub open spec fn header_opts(header: Seq<u8>) -> Option<OptsModel> {
    let f = split(header, BLANK);
    let size = usize::MAX as nat;
    if f.len() < 6 {
        None
    } else if tag_hard_blank(f[0]) is None || parse_unsigned(f[1], size) is None || parse_unsigned(
        f[2],
        size,
    ) is None || parse_unsigned(f[3], size) is None || parse_signed(f[4], 128, 127) is None
        || parse_unsigned(f[5], size) is None || optional_unsigned(f, 6, 255) is None
        || optional_unsigned(f, 7, 0xffff) is None || optional_unsigned(f, 8, size) is None {
        None
    } else {
        Some(
            OptsModel {
                hard_blank: tag_hard_blank(f[0]).unwrap(),
                height: parse_unsigned(f[1], size).unwrap(),
                baseline: parse_unsigned(f[2], size).unwrap(),
                max_len: parse_unsigned(f[3], size).unwrap(),
                num_comment_lines: parse_unsigned(f[5], size).unwrap(),
                print_direction: match optional_unsigned(f, 6, 255).unwrap() {
                    Some(d) => d as u8,
                    None => 0,
                },
                code_tag_count: optional_unsigned(f, 8, size).unwrap(),
                fitting_rules: resolve(
                    parse_signed(f[4], 128, 127).unwrap() as i8,
                    match optional_unsigned(f, 7, 0xffff).unwrap() {
                        Some(bits) => Some(bits as u16),
                        None => None,
                    },
                ),
            },
        )
    }
}

/// Reads the hard blank out of a header's first field.
fn read_hard_blank(tag: &[u8]) -> (r: Option<char>)
    ensures
        r == tag_hard_blank(tag@),
{
    let text = match text_of(slice_to_vec(tag)) {
        Some(s) => s,
        None => {
            return None;
        },
    };
    let chars = text.as_str();
    if chars.unicode_len() < 6 {
        return None;
    }
    Some(chars.get_char(5))
}

/// Reads a numeral that has to fit a `usize`.
fn read_size(field: &[u8]) -> (r: Option<usize>)
    ensures
        match parse_unsigned(field@, usize::MAX as nat) {
            Some(v) => r == Some(v as usize),
            None => r is None,
        },
{
    match read_unsigned(field, usize::MAX as u64) {
        Some(v) => Some(v as usize),
        None => None,
    }
}

impl FontOpts {
    /// Reads a header line. Its first field, as every field of a text, is
    /// well-formed UTF-8, so that it names a hard blank as soon as it has
    /// six characters.
    pub fn parse(header: &str) -> (r: Result<FontOpts, FontError>)
        ensures
            match header_opts(header.spec_bytes()) {
                Some(m) => r matches Ok(opts) && opts@ == m,
                None => r == Err::<FontOpts, FontError>(FontError::FontHeaderError),
            },
            valid_utf8(split(header.spec_bytes(), BLANK)[0]),
    {
        proof {
            encode_utf8_valid_utf8(header@);
            lemma_split_nonempty(header.spec_bytes(), BLANK);
            lemma_split_keeps_text(header.spec_bytes(), BLANK);
        }
        FontOpts::parse_bytes(header.as_bytes())
    }

    /// Reads a header line that is at hand as bytes.
    pub fn parse_bytes(header: &[u8]) -> (r: Result<FontOpts, FontError>)
        ensures
            match header_opts(header@) {
                Some(m) => r matches Ok(opts) && opts@ == m,
                None => r == Err::<FontOpts, FontError>(FontError::FontHeaderError),
            },
    {
        let f = split_bytes(header, BLANK);
        if f.len() < 6 {
            return Err(FontError::FontHeaderError);
        }
        let hard_blank: char = match read_hard_blank(f[0].as_slice()) {
            Some(v) => v,
            None => { return Err(FontError::FontHeaderError); },
        };
        let height: usize = match read_size(f[1].as_slice()) {
            Some(v) => v,
            None => { return Err(FontError::FontHeaderError); },
        };
        let baseline: usize = match read_size(f[2].as_slice()) {
            Some(v) => v,
            None => { return Err(FontError::FontHeaderError); },
        };
        let max_len: usize = match read_size(f[3].as_slice()) {
            Some(v) => v,
            None => { return Err(FontError::FontHeaderError); },
        };
        let old_layout: i8 = match read_signed(f[4].as_slice(), 128, 127) {
            Some(v) => v as i8,
            None => { return Err(FontError::FontHeaderError); },
        };
        let num_comment_lines: usize = match read_size(f[5].as_slice()) {
            Some(v) => v,
            None => { return Err(FontError::FontHeaderError); },
        };
        let print_direction: u8 = if f.len() > 6 {
            match read_unsigned(f[6].as_slice(), 255) {
                Some(v) => v as u8,
                None => { return Err(FontError::FontHeaderError); },
            }
        } else {
            0
        };
        let full_layout: Option<RuleFlags> = if f.len() > 7 {
            match read_unsigned(f[7].as_slice(), 0xffff) {
                Some(v) => {
                    proof {
                        lemma_resolve_ignores_top_bit(old_layout, v as u16);
                    }
                    Some(RuleFlags::from_bits_truncate(v as u16))
                },
                None => { return Err(FontError::FontHeaderError); },
            }
        } else {
            None
        };
        let code_tag_count: Option<usize> = if f.len() > 8 {
            match read_size(f[8].as_slice()) {
                Some(v) => Some(v),
                None => { return Err(FontError::FontHeaderError); },
            }
        } else {
            None
        };
        let fitting_rules = FittingRules::from_flags(old_layout, full_layout);
        Ok(
            FontOpts {
                hard_blank,
                height,
                baseline,
                max_len,
                num_comment_lines,
                print_direction,
                code_tag_count,
                fitting_rules,
            },
        )
    }
}

/// What a `Font` holds: the header's scalars, the comment as bytes, and for
/// each supported character code the rows of its glyph as bytes.
pub struct FontModel {
    pub opts: OptsModel,
    pub comment: Seq<u8>,
    pub glyphs: Map<u8, Seq<Seq<u8>>>,
}

/// The comment of a font: the `count` lines after the header, each closed
/// by a newline.
pub open spec fn comment_of(ls: Seq<Seq<u8>>, count: nat) -> Seq<u8>
    decreases count,
{
    if count == 0 {
        Seq::<u8>::empty()
    } else {
        comment_of(ls, (count - 1) as nat) + ls[count as int] + seq![NEWLINE]
    }
}

/// The line that holds row `row` of the `k`-th glyph.
pub open spec fn glyph_line(opts: OptsModel, k: int, row: int) -> int {
    1 + opts.num_comment_lines + k * opts.height + row
}

/// The glyph row that a line holds: the line without its terminator run.
/// A line without a terminator holds none, nor does one whose content is
/// not well-formed UTF-8.
pub open spec fn glyph_row(line: Seq<u8>) -> Option<Seq<u8>> {
    match strip_row(line) {
        Some(content) => if valid_utf8(content) {
            Some(content)
        } else {
            None
        },
        None => None,
    }
}

/// The rows of the `k`-th glyph.
pub open spec fn glyph_of(ls: Seq<Seq<u8>>, opts: OptsModel, k: int) -> Seq<Seq<u8>> {
    Seq::new(opts.height, |row: int| glyph_row(ls[glyph_line(opts, k, row)]).unwrap())
}

/// Whether every line of every glyph holds a row.
pub open spec fn rows_are_text(ls: Seq<Seq<u8>>, opts: OptsModel) -> bool {
    forall|k: int, row: int|
        0 <= k < GLYPH_COUNT && 0 <= row < opts.height ==> glyph_row(
            ls[#[trigger] glyph_line(opts, k, row)],
        ) is Some
}

/// How many lines a font with this header has at least.
pub open spec fn lines_needed(opts: OptsModel) -> int {
    1 + opts.num_comment_lines + GLYPH_COUNT * opts.height
}

/// The font that a font file holds, or the reason why it holds none.
///
/// The first line is the header. The comment lines follow, and then the
/// glyphs of the supported codes in their order, each `height` lines long.
pub open spec fn font_of(data: Seq<u8>) -> Result<FontModel, FontError> {
    let ls = lines(data);
    if ls.len() == 0 {
        Err(FontError::FontHeaderError)
    } else {
        match header_opts(ls[0]) {
            None => Err(FontError::FontHeaderError),
            Some(opts) => if ls.len() < lines_needed(opts) || !valid_utf8(
                comment_of(ls, opts.num_comment_lines),
            ) || !rows_are_text(ls, opts) {
                Err(FontError::GlyphParseError)
            } else {
                Ok(
                    FontModel {
                        opts,
                        comment: comment_of(ls, opts.num_comment_lines),
                        glyphs: Map::new(
                            |c: u8| is_supported(c),
                            |c: u8| glyph_of(ls, opts, code_index(c)),
                        ),
                    },
                )
            },
        }
    }
}

/// The comment lines of a text make a text: in a font file that is a text,
/// no comment is refused.
pub proof fn lemma_comment_of_text_is_text(data: Seq<u8>, count: nat)
    requires
        valid_utf8(data),
        count < lines(data).len(),
    ensures
        valid_utf8(comment_of(lines(data), count)),
    decreases count,
{
    if count > 0 {
        let ls = lines(data);
        lemma_comment_of_text_is_text(data, (count - 1) as nat);
        lemma_lines_are_text(data);
        assert(valid_utf8(ls[count as int]));
        let newline = seq![NEWLINE];
        assert(valid_utf8(newline)) by {
            let c = seq!['\n'];
            assert(is_ascii_chars(c));
            is_ascii_chars_encode_utf8(c);
            encode_utf8_valid_utf8(c);
            assert(encode_utf8(c) =~= newline);
        }
        valid_utf8_concat(comment_of(ls, (count - 1) as nat), ls[count as int]);
        valid_utf8_concat(comment_of(ls, (count - 1) as nat) + ls[count as int], newline);
    }
}

/// A font that was read holds a glyph for every supported code and for no
/// other, and every glyph has as many rows as the header says.
pub proof fn lemma_font_is_complete(data: Seq<u8>)
    ensures
        font_of(data) matches Ok(font) ==> {
            &&& forall|c: u8| font.glyphs.dom().contains(c) <==> is_supported(c)
            &&& forall|c: u8| is_supported(c) ==> (#[trigger] font.glyphs[c]).len() == font.opts.height
        },
{
}

/// A font: header, comment and glyph table.
#[derive(Debug)]
pub struct Font {
    opts: FontOpts,
    comment: String,
    alphabet: Alphabet,
}

impl View for Font {
    type V = FontModel;

    closed spec fn view(&self) -> FontModel {
        FontModel { opts: self.opts@, comment: encode_utf8(self.comment@), glyphs: self.alphabet@ }
    }
}

/// Gathers the comment lines, which are the lines 1 to `count`.
fn gather_comment(ls: &Vec<Vec<u8>>, count: usize) -> (r: Vec<u8>)
    requires
        count < ls@.len(),
    ensures
        r@ == comment_of(contents(ls), count as nat),
{
    let mut out: Vec<u8> = Vec::new();
    let mut i: usize = 0;
    while i < count
        invariant
            i <= count < ls@.len(),
            out@ == comment_of(contents(ls), i as nat),
        decreases count - i,
    {
        i = i + 1;
        let line = &ls[i];
        let ghost before = out@;
        let m: usize = line.len();
        let mut j: usize = 0;
        while j < m
            invariant
                j <= m == line@.len(),
                out@ == before + line@.subrange(0, j as int),
            decreases m - j,
        {
            out.push(line[j]);
            assert(out@ =~= before + line@.subrange(0, j + 1));
            j = j + 1;
        }
        out.push(NEWLINE);
        assert(out@ =~= before + line@ + seq![NEWLINE]);
    }
    out
}

/// Reads the glyph whose rows are the `height` lines from `first` on.
fn read_glyph(ls: &Vec<Vec<u8>>, first: usize, height: usize) -> (r: Option<Char>)
    requires
        first + height <= ls@.len(),
    ensures
        match r {
            Some(g) => {
                &&& g.0@.len() == height
                &&& g@ == Seq::new(
                    height as nat,
                    |row: int| glyph_row(ls@[first + row]@).unwrap(),
                )
                &&& forall|row: int|
                    0 <= row < height ==> glyph_row(#[trigger] ls@[first + row]@) is Some
            },
            None => exists|row: int|
                0 <= row < height && glyph_row(#[trigger] ls@[first + row]@) is None,
        },
{
    let total: usize = ls.len();
    let mut rows: Vec<String> = Vec::new();
    let mut i: usize = 0;
    while i < height
        invariant
            i <= height,
            first + height <= ls@.len() == total,
            rows@.len() == i,
            forall|row: int| 0 <= row < i ==> glyph_row(#[trigger] ls@[first + row]@) is Some,
            forall|row: int|
                0 <= row < i ==> encode_utf8((#[trigger] rows@[row])@) == glyph_row(
                    ls@[first + row]@,
                ).unwrap(),
        decreases height - i,
    {
        let bytes = match row_content(ls[first + i].as_slice()) {
            Some(b) => b,
            None => {
                return None;
            },
        };
        match text_of(bytes) {
            Some(s) => {
                proof {
                    vstd::utf8::decode_utf8_encode_utf8(bytes@);
                }
                rows.push(s);
            },
            None => {
                return None;
            },
        }
        i = i + 1;
    }
    let g = Char(rows);
    assert(g@ =~= Seq::new(height as nat, |row: int| glyph_row(ls@[first + row]@).unwrap()));
    Some(g)
}

impl Font {
    /// The table holds a glyph for each supported code and for no other, and
    /// each glyph has as many rows as the header says.
    #[verifier::type_invariant]
    spec fn complete(&self) -> bool {
        &&& forall|c: u8| self.alphabet.0@.dom().contains(c) <==> is_supported(c)
        &&& forall|c: u8|
            is_supported(c) ==> (#[trigger] self.alphabet.0@[c]).0@.len() == self.opts.height
    }

    /// Reads a font file. The file being a text, its comment is one too:
    /// what can fail beyond the header is the number of lines and the glyph
    /// rows.
    pub fn parse(data: &str) -> (r: Result<Font, FontError>)
        ensures
            match font_of(data.spec_bytes()) {
                Ok(m) => r matches Ok(font) && font@ == m,
                Err(e) => r matches Err(x) && x == e,
            },
            forall|count: nat|
                count < lines(data.spec_bytes()).len() ==> valid_utf8(
                    #[trigger] comment_of(lines(data.spec_bytes()), count),
                ),
    {
        proof {
            encode_utf8_valid_utf8(data@);
            assert forall|count: nat| count < lines(data.spec_bytes()).len() implies valid_utf8(
                #[trigger] comment_of(lines(data.spec_bytes()), count),
            ) by {
                lemma_comment_of_text_is_text(data.spec_bytes(), count);
            }
        }
        Font::parse_bytes(data.as_bytes())
    }

    /// Reads a font file that is at hand as bytes.
    pub fn parse_bytes(data: &[u8]) -> (r: Result<Font, FontError>)
        ensures
            match font_of(data@) {
                Ok(m) => r matches Ok(font) && font@ == m,
                Err(e) => r matches Err(x) && x == e,
            },
    {
        broadcast use vstd::std_specs::hash::group_hash_axioms;

        let ls = split_lines(data);
        let ghost lsv = lines(data@);
        let total: usize = ls.len();
        if total == 0 {
            return Err(FontError::FontHeaderError);
        }
        let opts = match FontOpts::parse_bytes(ls[0].as_slice()) {
            Ok(o) => o,
            Err(_) => {
                return Err(FontError::FontHeaderError);
            },
        };
        let ghost m = opts@;
        let count: usize = opts.num_comment_lines;
        let height: usize = opts.height;
        if total - 1 < count {
            assert(GLYPH_COUNT * m.height >= 0) by (nonlinear_arith);
            return Err(FontError::GlyphParseError);
        }
        let comment = match text_of(gather_comment(&ls, count)) {
            Some(s) => s,
            None => {
                return Err(FontError::GlyphParseError);
            },
        };
        proof {
            vstd::utf8::decode_utf8_encode_utf8(comment_of(lsv, count as nat));
            lemma_code_order();
        }
        let mut alphabet = Alphabet::new();
        let mut next: usize = 1 + count;
        let mut k: usize = 0;
        while k < GLYPH_COUNT
            invariant
                k <= GLYPH_COUNT,
                total == ls@.len(),
                contents(&ls) == lsv,
                lsv == lines(data@),
                header_opts(lsv[0]) == Some(m),
                valid_utf8(comment_of(lsv, count as nat)),
                m == opts@,
                m.height == height,
                m.num_comment_lines == count,
                next == 1 + count + k * height,
                next <= total,
                forall|c: u8| alphabet.0@.dom().contains(c) <==> is_supported(c) && code_index(c) < k,
                forall|c: u8|
                    is_supported(c) && code_index(c) < k ==> (#[trigger] alphabet.0@[c]).0@.len()
                        == height,
                forall|c: u8|
                    is_supported(c) && code_index(c) < k ==> (#[trigger] alphabet.0@[c])@
                        == glyph_of(lsv, m, code_index(c)),
                forall|j: int, row: int|
                    0 <= j < k && 0 <= row < height ==> glyph_row(
                        lsv[#[trigger] glyph_line(m, j, row)],
                    ) is Some,
            decreases GLYPH_COUNT - k,
        {
            proof {
                lemma_code_order();
                assert((k + 1) * height == k * height + height) by (nonlinear_arith);
                assert((k + 1) * height <= GLYPH_COUNT * height) by (nonlinear_arith)
                    requires
                        k + 1 <= GLYPH_COUNT,
                ;
            }
            if total - next < height {
                return Err(FontError::GlyphParseError);
            }
            let glyph = match read_glyph(&ls, next, height) {
                Some(g) => g,
                None => {
                    proof {
                        let row = choose|row: int|
                            0 <= row < height && glyph_row(#[trigger] ls@[next + row]@) is None;
                        assert(lsv[glyph_line(m, k as int, row)] == ls@[next + row]@);
                    }
                    return Err(FontError::GlyphParseError);
                },
            };
            proof {
                assert(glyph@ =~= glyph_of(lsv, m, k as int)) by {
                    assert forall|row: int| 0 <= row < height implies glyph_row(
                        ls@[next + row]@,
                    ) == glyph_row(lsv[glyph_line(m, k as int, row)]) by {
                        assert(lsv[glyph_line(m, k as int, row)] == ls@[next + row]@);
                    }
                }
                assert forall|j: int, row: int|
                    0 <= j < k + 1 && 0 <= row < height implies glyph_row(
                    lsv[#[trigger] glyph_line(m, j, row)],
                ) is Some by {
                    if j == k {
                        assert(lsv[glyph_line(m, k as int, row)] == ls@[next + row]@);
                    }
                }
            }
            let code: u8 = code_at(k);
            alphabet.0.insert(code, glyph);
            next = next + height;
            k = k + 1;
        }
        proof {
            assert(rows_are_text(lsv, m));
            assert(alphabet@ =~= Map::new(
                |c: u8| is_supported(c),
                |c: u8| glyph_of(lsv, m, code_index(c)),
            ));
        }
        Ok(Font { opts, comment, alphabet })
    }

    /// The glyph of a character code.
    pub fn glyph(&self, code: u8) -> (r: Result<&Char, FontError>)
        ensures
            is_supported(code) ==> (r matches Ok(g) && g@ == self@.glyphs[code] && g.0@.len()
                == self@.opts.height),
            !is_supported(code) ==> (r matches Err(e) && e
                == FontError::UnsupportedCharacterError),
    {
        broadcast use vstd::std_specs::hash::group_hash_axioms;

        proof {
            use_type_invariant(self);
        }
        match self.alphabet.0.get(&code) {
            Some(g) => Ok(g),
            None => Err(FontError::UnsupportedCharacterError),
        }
    }

    /// The header's scalars.
    pub fn opts(&self) -> (r: &FontOpts)
        ensures
            r@ == self@.opts,
    {
        &self.opts
    }

    /// The comment that follows the header.
    pub fn comment(&self) -> (r: &str)
        ensures
            r.spec_bytes() == self@.comment,
    {
        self.comment.as_str()
    }

    /// The number of rows of every glyph.
    pub fn height(&self) -> (r: usize)
        ensures
            r == self@.opts.height,
    {
        self.opts.height
    }

    /// The number of rows of a glyph above the line on which the text stands.
    pub fn baseline(&self) -> (r: usize)
        ensures
            r == self@.opts.baseline,
    {
        self.opts.baseline
    }

    /// The character that prints as a space and smushes as none.
    pub fn hard_blank(&self) -> (r: char)
        ensures
            r == self@.opts.hard_blank,
    {
        self.opts.hard_blank
    }

    /// The byte by which the rules know the hard blank in a row.
    pub fn hard_blank_byte(&self) -> (r: u8)
        ensures
            r == spec_hard_blank_byte(self@.opts.hard_blank),
    {
        hard_blank_byte(self.opts.hard_blank)
    }

    /// How many columns the row `txt2` may be pushed into the row `txt1` to
    /// its left, under the font's own rules.
    pub fn horizontal_smush_length(&self, txt1: &str, txt2: &str) -> (r: usize)
        ensures
            r == spec_row_overlap(
                self@.opts.fitting_rules,
                spec_hard_blank_byte(self@.opts.hard_blank),
                txt1.spec_bytes(),
                txt2.spec_bytes(),
            ),
    {
        row_overlap(
            &self.opts.fitting_rules,
            hard_blank_byte(self.opts.hard_blank),
            txt1.as_bytes(),
            txt2.as_bytes(),
        )
    }

    /// How many columns the glyph `right` may be pushed into the glyph
    /// `left`, under the font's own rules.
    pub fn horizontal_overlap(&self, left: &Char, right: &Char) -> (r: usize)
        ensures
            is_glyph_overlap(
                self@.opts.fitting_rules,
                spec_hard_blank_byte(self@.opts.hard_blank),
                left@,
                right@,
                r as int,
            ),
    {
        glyph_overlap(
            &self.opts.fitting_rules,
            hard_blank_byte(self.opts.hard_blank),
            left,
            right,
        )
    }

    /// Whether the row `txt1` and the row `txt2` below it may merge, under
    /// the font's own rules.
    pub fn can_vertical_smush(&self, txt1: &str, txt2: &str) -> (r: SmushStatus)
        ensures
            r == spec_can_vertical_smush(
                self@.opts.fitting_rules,
                txt1.spec_bytes(),
                txt2.spec_bytes(),
            ),
    {
        vertical_verdict(&self.opts.fitting_rules, txt1.as_bytes(), txt2.as_bytes())
    }

    /// The direction in which the header says the text runs.
    pub fn print_direction(&self) -> (r: u8)
        ensures
            r == self@.opts.print_direction,
    {
        self.opts.print_direction
    }
}

} // verus!
