//! Glyphs and the table that holds one glyph for each supported character
//! code.

use std::collections::HashMap;
use vstd::prelude::*;
use vstd::utf8::encode_utf8;

verus! {

/// How many character codes a font covers.
pub const GLYPH_COUNT: usize = 102;

/// How many of them are the printable ASCII range, which comes first.
pub const ASCII_COUNT: usize = 95;

/// Whether a font holds a glyph for `code`: printable ASCII and seven
/// accented Latin letters.
pub open spec fn is_supported(code: u8) -> bool {
    ||| 32 <= code <= 126
    ||| code == 196
    ||| code == 214
    ||| code == 220
    ||| code == 228
    ||| code == 246
    ||| code == 252
    ||| code == 223
}

/// The supported codes in the order in which a font file lists their glyphs.
pub open spec fn code_order() -> Seq<u8> {
    Seq::new(95, |i: int| (32 + i) as u8) + seq![196u8, 214u8, 220u8, 228u8, 246u8, 252u8, 223u8]
}

/// The place of a supported code in that order.
pub open spec fn code_index(code: u8) -> int {
    if 32 <= code <= 126 {
        code - 32
    } else if code == 196 {
        95
    } else if code == 214 {
        96
    } else if code == 220 {
        97
    } else if code == 228 {
        98
    } else if code == 246 {
        99
    } else if code == 252 {
        100
    } else {
        101
    }
}

/// The order lists every supported code once, and nothing else.
pub proof fn lemma_code_order()
    ensures
        code_order().len() == GLYPH_COUNT,
        forall|i: int| 0 <= i < GLYPH_COUNT ==> is_supported(#[trigger] code_order()[i]),
        forall|i: int| 0 <= i < GLYPH_COUNT ==> code_index(#[trigger] code_order()[i]) == i,
        forall|c: u8|
            is_supported(c) ==> 0 <= #[trigger] code_index(c) < GLYPH_COUNT && code_order()[code_index(
                c,
            )] == c,
{
}

/// The code whose glyph is the `i`-th in a font file.
pub fn code_at(i: usize) -> (r: u8)
    requires
        i < GLYPH_COUNT,
    ensures
        r == code_order()[i as int],
{
    if i < ASCII_COUNT {
        (i + 32) as u8
    } else if i == 95 {
        196
    } else if i == 96 {
        214
    } else if i == 97 {
        220
    } else if i == 98 {
        228
    } else if i == 99 {
        246
    } else if i == 100 {
        252
    } else {
        223
    }
}

/// Whether a font holds a glyph for `code`.
pub fn supports(code: u8) -> (r: bool)
    ensures
        r == is_supported(code),
{
    (32 <= code && code <= 126) || code == 196 || code == 214 || code == 220 || code == 228
        || code == 246 || code == 252 || code == 223
}

/// A glyph: its rows of sub-characters, top to bottom. Its view is the bytes
/// of each row.
#[derive(Debug)]
pub struct Char(pub Vec<String>);

impl View for Char {
    type V = Seq<Seq<u8>>;

    open spec fn view(&self) -> Seq<Seq<u8>> {
        Seq::new(self.0@.len(), |i: int| encode_utf8(self.0@[i]@))
    }
}

impl Char {
    /// A glyph of `height` empty rows.
    pub fn with_height(height: usize) -> (r: Self)
        ensures
            r@ == Seq::new(height as nat, |i: int| Seq::<u8>::empty()),
    {
        let mut rows: Vec<String> = Vec::new();
        let mut i: usize = 0;
        while i < height
            invariant
                i <= height,
                rows@.len() == i,
                forall|k: int| 0 <= k < i ==> (#[trigger] rows@[k])@.len() == 0,
            decreases height - i,
        {
            rows.push(String::new());
            i = i + 1;
        }
        let r = Char(rows);
        assert(r@ =~= Seq::new(height as nat, |i: int| Seq::<u8>::empty()));
        r
    }
}

/// The glyph table: character code to glyph. Its view maps each code to the
/// rows of its glyph.
#[derive(Debug)]
pub struct Alphabet(pub HashMap<u8, Char>);

impl View for Alphabet {
    type V = Map<u8, Seq<Seq<u8>>>;

    open spec fn view(&self) -> Map<u8, Seq<Seq<u8>>> {
        self.0@.map_values(|c: Char| c@)
    }
}

impl Alphabet {
    /// A table without glyphs.
    pub fn new() -> (r: Self)
        ensures
            r.0@ == Map::<u8, Char>::empty(),
            r@ == Map::<u8, Seq<Seq<u8>>>::empty(),
    {
        let r = Alphabet(HashMap::with_capacity(102));
        assert(r@ =~= Map::<u8, Seq<Seq<u8>>>::empty());
        r
    }
}

} // verus!
