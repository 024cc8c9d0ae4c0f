//! The text of a font file, as bytes: lines, space-separated fields, decimal
//! numerals and the terminator run that closes a glyph row.

use vstd::prelude::*;
use vstd::utf8::{
    decode_utf8, is_char_boundary_iff_not_is_continuation_byte, pop_first_scalar, valid_utf8,
    valid_utf8_split,
};

verus! {

pub const NEWLINE: u8 = 0x0a;
pub const CARRIAGE_RETURN: u8 = 0x0d;
pub const BLANK: u8 = 0x20;
pub const PLUS_SIGN: u8 = 0x2b;
pub const MINUS_SIGN: u8 = 0x2d;
pub const DIGIT_ZERO: u8 = 0x30;
pub const DIGIT_NINE: u8 = 0x39;

/// The pieces of `data` between occurrences of `sep`. There is always at
/// least one piece; two separators in a row enclose an empty piece.
pub open spec fn split(data: Seq<u8>, sep: u8) -> Seq<Seq<u8>>
    decreases data.len(),
{
    if data.len() == 0 {
        seq![Seq::<u8>::empty()]
    } else {
        let before = split(data.drop_last(), sep);
        if data.last() == sep {
            before.push(Seq::<u8>::empty())
        } else {
            before.drop_last().push(before.last().push(data.last()))
        }
    }
}

/// `line` without the carriage return at its end, if it has one.
pub open spec fn strip_carriage_return(line: Seq<u8>) -> Seq<u8> {
    if line.len() > 0 && line.last() == CARRIAGE_RETURN {
        line.drop_last()
    } else {
        line
    }
}

/// The lines of a text. A line ends at a newline, which is not part of it,
/// nor is a carriage return right before that newline. What follows the last
/// newline is a line of its own unless it is empty.
pub open spec fn lines(data: Seq<u8>) -> Seq<Seq<u8>> {
    let pieces = split(data, NEWLINE);
    let closed = Seq::new(
        (pieces.len() - 1) as nat,
        |i: int| strip_carriage_return(pieces[i]),
    );
    if pieces.last().len() == 0 {
        closed
    } else {
        closed.push(pieces.last())
    }
}

/// A split has at least one piece.
pub proof fn lemma_split_nonempty(data: Seq<u8>, sep: u8)
    ensures
        split(data, sep).len() >= 1,
    decreases data.len(),
{
    if data.len() > 0 {
        lemma_split_nonempty(data.drop_last(), sep);
    }
}

/// The pieces put together again, with `sep` between each two.
pub open spec fn join(pieces: Seq<Seq<u8>>, sep: u8) -> Seq<u8>
    decreases pieces.len(),
{
    if pieces.len() == 0 {
        Seq::<u8>::empty()
    } else if pieces.len() == 1 {
        pieces[0]
    } else {
        join(pieces.drop_last(), sep) + seq![sep] + pieces.last()
    }
}

/// A split loses nothing and leaves no separator behind: no piece holds
/// `sep`, and the pieces joined by `sep` are the text.
pub proof fn lemma_split_is_exact(data: Seq<u8>, sep: u8)
    ensures
        forall|k: int, i: int|
            0 <= k < split(data, sep).len() && 0 <= i < split(data, sep)[k].len() ==> #[trigger] split(
                data,
                sep,
            )[k][i] != sep,
        join(split(data, sep), sep) == data,
    decreases data.len(),
{
    let pieces = split(data, sep);
    if data.len() == 0 {
        assert(join(pieces, sep) =~= data);
    } else {
        let before = split(data.drop_last(), sep);
        lemma_split_is_exact(data.drop_last(), sep);
        lemma_split_nonempty(data.drop_last(), sep);
        if data.last() == sep {
            assert(pieces.drop_last() =~= before);
            assert(join(pieces, sep) =~= data.drop_last() + seq![sep] + Seq::<u8>::empty());
            assert(join(pieces, sep) =~= data);
        } else {
            let grown = before.last().push(data.last());
            if before.len() == 1 {
                assert(join(before, sep) == before[0]);
                assert(pieces.len() == 1 && pieces[0] == grown);
                assert(grown =~= data.drop_last().push(data.last()));
                assert(data.drop_last().push(data.last()) =~= data);
            } else {
                let head = join(before.drop_last(), sep) + seq![sep];
                assert(pieces.drop_last() =~= before.drop_last());
                assert(pieces.last() == grown);
                assert(join(before, sep) == head + before.last());
                assert(join(pieces, sep) == head + grown);
                assert(head + grown =~= (head + before.last()).push(data.last()));
                assert(data.drop_last().push(data.last()) =~= data);
            }
        }
    }
}

/// How the split of a text grows with one more byte.
proof fn lemma_split_step(data: Seq<u8>, i: int, sep: u8)
    requires
        0 <= i < data.len(),
    ensures
        split(data.subrange(0, i), sep).len() >= 1,
        split(data.subrange(0, i + 1), sep) == if data[i] == sep {
            split(data.subrange(0, i), sep).push(Seq::<u8>::empty())
        } else {
            split(data.subrange(0, i), sep).drop_last().push(
                split(data.subrange(0, i), sep).last().push(data[i]),
            )
        },
{
    lemma_split_nonempty(data.subrange(0, i), sep);
    assert(data.subrange(0, i + 1).drop_last() =~= data.subrange(0, i));
}

/// The byte sequences that a vector of pieces or lines holds.
pub open spec fn contents(v: &Vec<Vec<u8>>) -> Seq<Seq<u8>> {
    Seq::new(v@.len(), |i: int| v@[i]@)
}

/// Splits `data` at every `sep`.
pub fn split_bytes(data: &[u8], sep: u8) -> (r: Vec<Vec<u8>>)
    ensures
        contents(&r) == split(data@, sep),
{
    let mut out: Vec<Vec<u8>> = Vec::new();
    let mut cur: Vec<u8> = Vec::new();
    let n: usize = data.len();
    let mut i: usize = 0;
    while i < n
        invariant
            n == data@.len(),
            i <= n,
            out@.len() + 1 == split(data@.subrange(0, i as int), sep).len(),
            forall|k: int|
                0 <= k < out@.len() ==> (#[trigger] out@[k])@ == split(
                    data@.subrange(0, i as int),
                    sep,
                )[k],
            cur@ == split(data@.subrange(0, i as int), sep).last(),
        decreases n - i,
    {
        proof {
            lemma_split_step(data@, i as int, sep);
        }
        if data[i] == sep {
            out.push(cur);
            cur = Vec::new();
        } else {
            cur.push(data[i]);
        }
        i = i + 1;
    }
    assert(data@.subrange(0, n as int) =~= data@);
    out.push(cur);
    assert(contents(&out) =~= split(data@, sep));
    out
}

/// Splits `data` into its lines.
pub fn split_lines(data: &[u8]) -> (r: Vec<Vec<u8>>)
    ensures
        contents(&r) == lines(data@),
{
    let mut out: Vec<Vec<u8>> = Vec::new();
    let mut cur: Vec<u8> = Vec::new();
    let n: usize = data.len();
    let mut i: usize = 0;
    while i < n
        invariant
            n == data@.len(),
            i <= n,
            out@.len() + 1 == split(data@.subrange(0, i as int), NEWLINE).len(),
            forall|k: int|
                0 <= k < out@.len() ==> (#[trigger] out@[k])@ == strip_carriage_return(
                    split(data@.subrange(0, i as int), NEWLINE)[k],
                ),
            cur@ == split(data@.subrange(0, i as int), NEWLINE).last(),
        decreases n - i,
    {
        proof {
            lemma_split_step(data@, i as int, NEWLINE);
        }
        if data[i] == NEWLINE {
            let m: usize = cur.len();
            if m > 0 && cur[m - 1] == CARRIAGE_RETURN {
                cur.pop();
            }
            out.push(cur);
            cur = Vec::new();
        } else {
            cur.push(data[i]);
        }
        i = i + 1;
    }
    assert(data@.subrange(0, n as int) =~= data@);
    if cur.len() > 0 {
        out.push(cur);
    }
    assert(contents(&out) =~= lines(data@));
    out
}

/// Whether `b` is a decimal digit.
pub open spec fn is_digit(b: u8) -> bool {
    DIGIT_ZERO <= b <= DIGIT_NINE
}

/// Whether `s` holds decimal digits only.
pub open spec fn all_digits(s: Seq<u8>) -> bool {
    forall|i: int| 0 <= i < s.len() ==> is_digit(#[trigger] s[i])
}

/// The number that a run of decimal digits writes.
pub open spec fn digits_value(s: Seq<u8>) -> nat
    decreases s.len(),
{
    if s.len() == 0 {
        0
    } else {
        digits_value(s.drop_last()) * 10 + (if is_digit(s.last()) {
            (s.last() - DIGIT_ZERO) as nat
        } else {
            0
        })
    }
}

/// The number that a run of digits writes, where there is at least one digit
/// and that number is at most `limit`.
pub open spec fn parse_magnitude(s: Seq<u8>, limit: nat) -> Option<nat> {
    if s.len() > 0 && all_digits(s) && digits_value(s) <= limit {
        Some(digits_value(s))
    } else {
        None
    }
}

/// The number that an unsigned decimal numeral writes: digits, with `+`
/// allowed in front, and a value of at most `max`.
pub open spec fn parse_unsigned(s: Seq<u8>, max: nat) -> Option<nat> {
    if s.len() > 0 && s[0] == PLUS_SIGN {
        parse_magnitude(s.drop_first(), max)
    } else {
        parse_magnitude(s, max)
    }
}

/// The number that a signed decimal numeral writes: digits, with `+` or `-`
/// allowed in front, and a value from `-min_magnitude` to `max`.
pub open spec fn parse_signed(s: Seq<u8>, min_magnitude: nat, max: nat) -> Option<int> {
    if s.len() > 0 && s[0] == MINUS_SIGN {
        match parse_magnitude(s.drop_first(), min_magnitude) {
            Some(v) => Some(-(v as int)),
            None => None,
        }
    } else {
        match parse_unsigned(s, max) {
            Some(v) => Some(v as int),
            None => None,
        }
    }
}

/// A run of digits writes no smaller a number than any of its prefixes.
proof fn lemma_digits_value_grows(s: Seq<u8>, i: int)
    requires
        0 <= i <= s.len(),
    ensures
        digits_value(s.subrange(0, i)) <= digits_value(s),
    decreases s.len() - i,
{
    if i == s.len() {
        assert(s.subrange(0, i) =~= s);
    } else {
        lemma_digits_value_grows(s.drop_last(), i);
        assert(s.drop_last().subrange(0, i) =~= s.subrange(0, i));
    }
}

/// Reads a run of digits whose number is at most `limit`.
fn read_magnitude(s: &[u8], from: usize, limit: u64) -> (r: Option<u64>)
    requires
        from <= s@.len(),
    ensures
        match parse_magnitude(s@.subrange(from as int, s@.len() as int), limit as nat) {
            Some(v) => r == Some(v as u64),
            None => r is None,
        },
{
    let n: usize = s.len();
    let ghost body = s@.subrange(from as int, n as int);
    if from == n {
        return None;
    }
    let mut acc: u64 = 0;
    let mut i: usize = from;
    while i < n
        invariant
            n == s@.len(),
            from <= i <= n,
            body == s@.subrange(from as int, n as int),
            all_digits(body.subrange(0, i - from)),
            acc == digits_value(body.subrange(0, i - from)),
            acc <= limit,
        decreases n - i,
    {
        let b: u8 = s[i];
        proof {
            assert(body[i - from] == b);
            assert(body.subrange(0, i - from + 1).drop_last() =~= body.subrange(0, i - from));
        }
        if b < DIGIT_ZERO || b > DIGIT_NINE {
            return None;
        }
        let d: u64 = (b - DIGIT_ZERO) as u64;
        if d > limit || acc > (limit - d) / 10 {
            proof {
                lemma_digits_value_grows(body, i - from + 1);
            }
            return None;
        }
        acc = acc * 10 + d;
        i = i + 1;
    }
    assert(body.subrange(0, n - from) =~= body);
    Some(acc)
}

/// Reads an unsigned decimal numeral of at most `max`.
pub fn read_unsigned(s: &[u8], max: u64) -> (r: Option<u64>)
    ensures
        match parse_unsigned(s@, max as nat) {
            Some(v) => r == Some(v as u64),
            None => r is None,
        },
{
    if s.len() > 0 && s[0] == PLUS_SIGN {
        assert(s@.drop_first() =~= s@.subrange(1, s@.len() as int));
        read_magnitude(s, 1, max)
    } else {
        assert(s@ =~= s@.subrange(0, s@.len() as int));
        read_magnitude(s, 0, max)
    }
}

/// Reads a signed decimal numeral from `-min_magnitude` to `max`.
pub fn read_signed(s: &[u8], min_magnitude: u64, max: u64) -> (r: Option<i64>)
    requires
        min_magnitude <= 0x7fff_ffff_ffff_ffff,
        max <= 0x7fff_ffff_ffff_ffff,
    ensures
        match parse_signed(s@, min_magnitude as nat, max as nat) {
            Some(v) => r == Some(v as i64),
            None => r is None,
        },
{
    if s.len() > 0 && s[0] == MINUS_SIGN {
        assert(s@.drop_first() =~= s@.subrange(1, s@.len() as int));
        match read_magnitude(s, 1, min_magnitude) {
            Some(v) => Some(-(v as i64)),
            None => None,
        }
    } else {
        match read_unsigned(s, max) {
            Some(v) => Some(v as i64),
            None => None,
        }
    }
}

/// `s` without the run of `t` at its end.
pub open spec fn strip_trailing(s: Seq<u8>, t: u8) -> Seq<u8>
    decreases s.len(),
{
    if s.len() > 0 && s.last() == t {
        strip_trailing(s.drop_last(), t)
    } else {
        s
    }
}

/// The content of a glyph row: the line without its terminator run. The
/// terminator is whatever byte the line ends with, so a line without any
/// byte has none and is no row.
pub open spec fn strip_row(line: Seq<u8>) -> Option<Seq<u8>> {
    if line.len() == 0 {
        None
    } else {
        Some(strip_trailing(line, line.last()))
    }
}

/// What stripping leaves: a prefix that does not end with the terminator,
/// and what it takes away holds terminators only.
pub proof fn lemma_strip_trailing_shape(s: Seq<u8>, t: u8)
    ensures
        strip_trailing(s, t).len() <= s.len(),
        strip_trailing(s, t) == s.subrange(0, strip_trailing(s, t).len() as int),
        strip_trailing(s, t).len() > 0 ==> strip_trailing(s, t).last() != t,
        forall|i: int| strip_trailing(s, t).len() <= i < s.len() ==> s[i] == t,
    decreases s.len(),
{
    if s.len() > 0 && s.last() == t {
        lemma_strip_trailing_shape(s.drop_last(), t);
        let r = strip_trailing(s, t);
        assert(r =~= s.subrange(0, r.len() as int));
        assert forall|i: int| r.len() <= i < s.len() implies s[i] == t by {
            if i < s.len() - 1 {
                assert(s.drop_last()[i] == s[i]);
            }
        }
    } else {
        assert(s =~= s.subrange(0, s.len() as int));
    }
}

/// Stripping the run of one terminator twice leaves what stripping it once
/// leaves.
pub proof fn lemma_strip_trailing_idempotent(s: Seq<u8>, t: u8)
    ensures
        strip_trailing(strip_trailing(s, t), t) == strip_trailing(s, t),
    decreases s.len(),
{
    if s.len() > 0 && s.last() == t {
        lemma_strip_trailing_idempotent(s.drop_last(), t);
    }
}

/// What is left of a row never comes back when it is taken for a line and
/// stripped again: if anything is left, the byte it now ends with counts as
/// a terminator, and if nothing is left, there is no terminator at all.
pub proof fn lemma_strip_row_twice(line: Seq<u8>)
    ensures
        strip_row(line) matches Some(once) ==> strip_row(once) != Some(once),
{
    if line.len() > 0 {
        let once = strip_trailing(line, line.last());
        if once.len() > 0 {
            lemma_strip_trailing_shape(once, once.last());
        }
    }
}

/// The number of bytes of `line` that are left when its terminator run is
/// stripped.
fn row_len(line: &[u8]) -> (r: usize)
    requires
        line@.len() > 0,
    ensures
        r <= line@.len(),
        strip_row(line@) == Some(line@.subrange(0, r as int)),
{
    let n: usize = line.len();
    let t: u8 = line[n - 1];
    let mut k: usize = n;
    assert(line@ =~= line@.subrange(0, n as int));
    while k > 0 && line[k - 1] == t
        invariant
            n == line@.len(),
            k <= n,
            strip_trailing(line@, t) == strip_trailing(line@.subrange(0, k as int), t),
        decreases k,
    {
        assert(line@.subrange(0, k as int).drop_last() =~= line@.subrange(0, k - 1));
        k = k - 1;
    }
    k
}

/// The content of a glyph row, copied out of its line, or `None` for a line
/// without any byte.
pub fn row_content(line: &[u8]) -> (r: Option<Vec<u8>>)
    ensures
        match strip_row(line@) {
            Some(content) => r matches Some(v) && v@ == content,
            None => r is None,
        },
{
    if line.len() == 0 {
        return None;
    }
    let n: usize = row_len(line);
    let mut out: Vec<u8> = Vec::with_capacity(n);
    let mut i: usize = 0;
    while i < n
        invariant
            n <= line@.len(),
            i <= n,
            out@ == line@.subrange(0, i as int),
        decreases n - i,
    {
        out.push(line[i]);
        assert(out@ =~= line@.subrange(0, i + 1));
        i = i + 1;
    }
    Some(out)
}

/// A text that ends with a one-byte character is still a text without it.
pub proof fn lemma_text_without_last(s: Seq<u8>)
    requires
        valid_utf8(s),
        s.len() > 0,
        s.last() < 0x80,
    ensures
        valid_utf8(s.drop_last()),
{
    let at = s.len() - 1;
    is_char_boundary_iff_not_is_continuation_byte(s, at);
    valid_utf8_split(s, at);
    assert(s.subrange(0, at) =~= s.drop_last());
}

/// Where pieces joined by a one-byte character make a text, each piece is
/// a text.
pub proof fn lemma_pieces_are_text(pieces: Seq<Seq<u8>>, sep: u8)
    requires
        sep < 0x80,
        pieces.len() >= 1,
        valid_utf8(join(pieces, sep)),
    ensures
        forall|k: int| 0 <= k < pieces.len() ==> valid_utf8(#[trigger] pieces[k]),
    decreases pieces.len(),
{
    if pieces.len() > 1 {
        let front = pieces.drop_last();
        let total = join(pieces, sep);
        let at = join(front, sep).len() as int;
        assert(total == join(front, sep) + seq![sep] + pieces.last());
        assert(total[at] == sep);
        is_char_boundary_iff_not_is_continuation_byte(total, at);
        valid_utf8_split(total, at);
        assert(total.subrange(0, at) =~= join(front, sep));
        let tail = total.subrange(at, total.len() as int);
        assert(tail =~= seq![sep] + pieces.last());
        assert(tail[0] == sep);
        assert(pop_first_scalar(tail) =~= pieces.last());
        lemma_pieces_are_text(front, sep);
        assert forall|k: int| 0 <= k < pieces.len() implies valid_utf8(#[trigger] pieces[k]) by {
            if k < pieces.len() - 1 {
                assert(pieces[k] == front[k]);
            }
        }
    }
}

/// The pieces of a text between occurrences of a one-byte character are
/// texts.
pub proof fn lemma_split_keeps_text(data: Seq<u8>, sep: u8)
    requires
        valid_utf8(data),
        sep < 0x80,
    ensures
        forall|k: int| 0 <= k < split(data, sep).len() ==> valid_utf8(#[trigger] split(data, sep)[k]),
{
    lemma_split_nonempty(data, sep);
    lemma_split_is_exact(data, sep);
    lemma_pieces_are_text(split(data, sep), sep);
}

/// The lines of a text are texts.
pub proof fn lemma_lines_are_text(data: Seq<u8>)
    requires
        valid_utf8(data),
    ensures
        forall|k: int| 0 <= k < lines(data).len() ==> valid_utf8(#[trigger] lines(data)[k]),
{
    let pieces = split(data, NEWLINE);
    lemma_split_nonempty(data, NEWLINE);
    lemma_split_keeps_text(data, NEWLINE);
    assert forall|k: int| 0 <= k < lines(data).len() implies valid_utf8(
        #[trigger] lines(data)[k],
    ) by {
        if k < pieces.len() - 1 {
            let piece = pieces[k];
            assert(valid_utf8(piece));
            if piece.len() > 0 && piece.last() == CARRIAGE_RETURN {
                lemma_text_without_last(piece);
            }
        } else {
            assert(lines(data)[k] == pieces.last());
        }
    }
}

/// The text that `bytes` encode, where they are UTF-8.
///
/// This is `String::from_utf8` of the standard library, with its error
/// dropped: it gives the string whose bytes are `bytes` if they are
/// well-formed UTF-8, and fails otherwise.
#[verifier::external_body]
pub(crate) fn text_of(bytes: Vec<u8>) -> (r: Option<String>)
    ensures
        match r {
            Some(s) => valid_utf8(bytes@) && s@ == decode_utf8(bytes@),
            None => !valid_utf8(bytes@),
        },
{
    match String::from_utf8(bytes) {
        Ok(s) => Some(s),
        Err(_) => None,
    }
}

} // verus!
