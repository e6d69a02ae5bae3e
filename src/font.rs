//! The font model and the parser of `.sfl` descriptors.
//!
//! A descriptor is line oriented:
//!
//! ```text
//! <font name>
//! <size> <line-height>
//! <image file name>
//! <character count N>
//! <id> <x> <y> <width> <height> <xoffset> <yoffset> <xadvance>   (N lines)
//! ```
//!
//! Lines end at `\n` or `\r\n`, as `str::lines` has it: a final line ending
//! opens no further line, but blank lines before it count as lines. Numeric
//! lines are split at every single space, as `str::split(' ')` does: two
//! spaces in a row make an empty token, which is no number.
use std::collections::HashMap;
use vstd::prelude::*;
use vstd::std_specs::hash::group_hash_axioms;
use crate::text::{
    line_spans, lines_of, parse_u32, pieces, spans_view, spans_within, split_spans, to_chars, u32_of,
};

verus! {

/// Metrics of one glyph in the font's atlas image.
#[derive(Clone, Copy, Debug, PartialEq, Eq, Structural)]
pub struct BMCharacter {
    pub id: u32,
    pub x: u32,
    pub y: u32,
    pub width: u32,
    pub height: u32,
    pub xoffset: u32,
    pub yoffset: u32,
    pub xadvance: u32,
}

/// A parsed font: its name, sizes, and glyphs keyed by character code.
#[derive(Clone, Debug, PartialEq, Eq)]
pub struct BMFont {
    pub font_name: String,
    pub chars: HashMap<u32, BMCharacter>,
    pub line_height: u32,
    pub size: u32,
}

/// The numeric field that was being read when a number failed to parse.
#[derive(Clone, Copy, Debug, PartialEq, Eq, Structural)]
pub enum Field {
    Size,
    LineHeight,
    CharacterCount,
    Id,
    X,
    Y,
    Width,
    Height,
    XOffset,
    YOffset,
    XAdvance,
}

/// Why a descriptor was rejected. Line numbers count from 1 over the whole file.
#[derive(Clone, Debug, PartialEq, Eq)]
pub enum ParseError {
    /// The descriptor could not be read at all.
    SourceUnavailable { reason: String },
    /// The descriptor has fewer than five lines.
    TooFewLines { lines: usize },
    /// Line 2 does not hold exactly two space-separated tokens.
    MalformedHeader { tokens: usize },
    /// A token that should be a number is not one.
    InvalidNumber { line: usize, field: Field, text: String },
    /// Fewer glyph lines follow line 4 than it declares.
    CharacterCountMismatch { actual: usize, expected: u32 },
    /// A glyph line has fewer than eight tokens.
    MalformedGlyphLine { line: usize, tokens: usize },
}

/// A font as mathematical values.
pub struct FontView {
    pub font_name: Seq<char>,
    pub chars: Map<u32, BMCharacter>,
    pub line_height: u32,
    pub size: u32,
}

/// A parse error as mathematical values.
pub enum ParseErrorView {
    SourceUnavailable { reason: Seq<char> },
    TooFewLines { lines: nat },
    MalformedHeader { tokens: nat },
    InvalidNumber { line: nat, field: Field, text: Seq<char> },
    CharacterCountMismatch { actual: nat, expected: u32 },
    MalformedGlyphLine { line: nat, tokens: nat },
}

impl View for BMFont {
    type V = FontView;

    open spec fn view(&self) -> FontView {
        FontView {
            font_name: self.font_name@,
            chars: self.chars@,
            line_height: self.line_height,
            size: self.size,
        }
    }
}

impl View for ParseError {
    type V = ParseErrorView;

    open spec fn view(&self) -> ParseErrorView {
        match self {
            ParseError::SourceUnavailable { reason } => ParseErrorView::SourceUnavailable {
                reason: reason@,
            },
            ParseError::TooFewLines { lines } => ParseErrorView::TooFewLines { lines: *lines as nat },
            ParseError::MalformedHeader { tokens } => ParseErrorView::MalformedHeader {
                tokens: *tokens as nat,
            },
            ParseError::InvalidNumber { line, field, text } => ParseErrorView::InvalidNumber {
                line: *line as nat,
                field: *field,
                text: text@,
            },
            ParseError::CharacterCountMismatch { actual, expected } =>
                ParseErrorView::CharacterCountMismatch { actual: *actual as nat, expected: *expected },
            ParseError::MalformedGlyphLine { line, tokens } => ParseErrorView::MalformedGlyphLine {
                line: *line as nat,
                tokens: *tokens as nat,
            },
        }
    }
}

/// A parse result as mathematical values.
pub open spec fn font_outcome(r: Result<BMFont, ParseError>) -> Result<FontView, ParseErrorView> {
    match r {
        Ok(f) => Ok(f@),
        Err(e) => Err(e@),
    }
}

/// A glyph result as mathematical values.
pub open spec fn glyph_outcome(r: Result<BMCharacter, ParseError>) -> Result<
    BMCharacter,
    ParseErrorView,
> {
    match r {
        Ok(g) => Ok(g),
        Err(e) => Err(e@),
    }
}

/// The field that the `k`-th token of a glyph line holds.
pub open spec fn glyph_field(k: int) -> Field {
    if k == 0 {
        Field::Id
    } else if k == 1 {
        Field::X
    } else if k == 2 {
        Field::Y
    } else if k == 3 {
        Field::Width
    } else if k == 4 {
        Field::Height
    } else if k == 5 {
        Field::XOffset
    } else if k == 6 {
        Field::YOffset
    } else {
        Field::XAdvance
    }
}

/// The first of the tokens `k..8` that is no number, if any.
pub open spec fn first_invalid(toks: Seq<Seq<char>>, k: nat) -> Option<nat>
    decreases 8 - k,
{
    if k >= 8 {
        None
    } else if u32_of(toks[k as int]) is None {
        Some(k)
    } else {
        first_invalid(toks, k + 1)
    }
}

/// The glyph whose eight fields are the numbers of the first eight tokens.
pub open spec fn glyph_of(toks: Seq<Seq<char>>) -> BMCharacter {
    BMCharacter {
        id: u32_of(toks[0])->0,
        x: u32_of(toks[1])->0,
        y: u32_of(toks[2])->0,
        width: u32_of(toks[3])->0,
        height: u32_of(toks[4])->0,
        xoffset: u32_of(toks[5])->0,
        yoffset: u32_of(toks[6])->0,
        xadvance: u32_of(toks[7])->0,
    }
}

/// What the glyph line `t`, at file line `line`, stands for. Tokens after the
/// eighth are ignored.
pub open spec fn glyph_line(t: Seq<char>, line: nat) -> Result<BMCharacter, ParseErrorView> {
    let toks = pieces(t, ' ');
    if toks.len() < 8 {
        Err(ParseErrorView::MalformedGlyphLine { line, tokens: toks.len() })
    } else {
        match first_invalid(toks, 0) {
            Some(k) => Err(
                ParseErrorView::InvalidNumber { line, field: glyph_field(k as int), text: toks[k as int] },
            ),
            None => Ok(glyph_of(toks)),
        }
    }
}

/// Reads the glyph line `v[lo..hi]`, where `v` holds the characters of `src`.
fn read_glyph_span(src: &str, v: &Vec<char>, lo: usize, hi: usize, line_number: usize) -> (r: Result<
    BMCharacter,
    ParseError,
>)
    requires
        v@ == src@,
        lo <= hi <= v@.len(),
    ensures
        glyph_outcome(r) == glyph_line(v@.subrange(lo as int, hi as int), line_number as nat),
{
    let ghost t = v@.subrange(lo as int, hi as int);
    let toks = split_spans(v, lo, hi, ' ');
    let ghost tv = spans_view(v@, toks@);
    if toks.len() < 8 {
        return Err(ParseError::MalformedGlyphLine { line: line_number, tokens: toks.len() });
    }
    let mut nums: Vec<u32> = Vec::new();
    let mut k: usize = 0;
    while k < 8
        invariant
            8 <= toks@.len(),
            v@ == src@,
            t == v@.subrange(lo as int, hi as int),
            tv == spans_view(v@, toks@),
            tv == pieces(t, ' '),
            spans_within(toks@, lo as int, hi as int),
            hi <= v@.len(),
            k <= 8,
            nums@.len() == k,
            first_invalid(tv, 0) == first_invalid(tv, k as nat),
            forall|j: int| 0 <= j < k ==> u32_of(tv[j]) == Some(#[trigger] nums@[j]),
        decreases 8 - k,
    {
        let (a, b) = toks[k];
        proof {
            assert(tv[k as int] == v@.subrange(a as int, b as int));
        }
        match parse_u32(v, a, b) {
            Some(n) => {
                nums.push(n);
            },
            None => {
                let text = src.substring_char(a, b).to_owned();
                proof {
                    assert(first_invalid(tv, k as nat) == Some(k as nat));
                }
                return Err(ParseError::InvalidNumber { line: line_number, field: field_at(k), text });
            },
        }
        k = k + 1;
    }
    Ok(
        BMCharacter {
            id: nums[0],
            x: nums[1],
            y: nums[2],
            width: nums[3],
            height: nums[4],
            xoffset: nums[5],
            yoffset: nums[6],
            xadvance: nums[7],
        },
    )
}

/// The field that the `k`-th token of a glyph line holds.
fn field_at(k: usize) -> (f: Field)
    ensures
        f == glyph_field(k as int),
{
    match k {
        0 => Field::Id,
        1 => Field::X,
        2 => Field::Y,
        3 => Field::Width,
        4 => Field::Height,
        5 => Field::XOffset,
        6 => Field::YOffset,
        _ => Field::XAdvance,
    }
}


/// The glyph table that the first `n` glyph lines of `ls` build, or the error
/// of the first of them that is not a glyph. Glyph line `i` (from 0) is line
/// `5 + i` of the file; a later glyph replaces an earlier one with its id.
pub open spec fn glyph_table(ls: Seq<Seq<char>>, n: nat) -> Result<Map<u32, BMCharacter>, ParseErrorView>
    decreases n,
{
    if n == 0 {
        Ok(Map::empty())
    } else {
        match glyph_table(ls, (n - 1) as nat) {
            Err(e) => Err(e),
            Ok(m) => match glyph_line(ls[n + 3 as int], n + 4) {
                Err(e) => Err(e),
                Ok(g) => Ok(m.insert(g.id, g)),
            },
        }
    }
}

/// Once a glyph line fails, every longer prefix fails with the same error.
pub proof fn lemma_glyph_table_error_persists(ls: Seq<Seq<char>>, n: nat, m: nat)
    requires
        n <= m,
        glyph_table(ls, n) is Err,
    ensures
        glyph_table(ls, m) == glyph_table(ls, n),
    decreases m - n,
{
    if n < m {
        lemma_glyph_table_error_persists(ls, n, (m - 1) as nat);
    }
}

/// What the descriptor text `s` stands for: the font, or the first rule that
/// it breaks, checked in order of the lines.
pub open spec fn parse_font(s: Seq<char>) -> Result<FontView, ParseErrorView> {
    let ls = lines_of(s);
    if ls.len() < 5 {
        Err(ParseErrorView::TooFewLines { lines: ls.len() })
    } else {
        let hdr = pieces(ls[1], ' ');
        if hdr.len() != 2 {
            Err(ParseErrorView::MalformedHeader { tokens: hdr.len() })
        } else if u32_of(hdr[0]) is None {
            Err(ParseErrorView::InvalidNumber { line: 2, field: Field::Size, text: hdr[0] })
        } else if u32_of(hdr[1]) is None {
            Err(ParseErrorView::InvalidNumber { line: 2, field: Field::LineHeight, text: hdr[1] })
        } else if u32_of(ls[3]) is None {
            Err(ParseErrorView::InvalidNumber { line: 4, field: Field::CharacterCount, text: ls[3] })
        } else {
            let count = u32_of(ls[3])->0;
            let available = ls.len() - 4;
            if available < count {
                Err(
                    ParseErrorView::CharacterCountMismatch {
                        actual: available as nat,
                        expected: count,
                    },
                )
            } else {
                match glyph_table(ls, count as nat) {
                    Err(e) => Err(e),
                    Ok(m) => Ok(
                        FontView {
                            font_name: ls[0],
                            chars: m,
                            line_height: u32_of(hdr[1])->0,
                            size: u32_of(hdr[0])->0,
                        },
                    ),
                }
            }
        }
    }
}

impl BMFont {
    /// Reads one glyph line: eight numbers, `id x y width height xoffset yoffset
    /// xadvance`, separated by single spaces. `line_number` is the line's place in
    /// its file, reported in errors.
    pub fn read_character(line: &str, line_number: usize) -> (r: Result<BMCharacter, ParseError>)
        ensures
            glyph_outcome(r) == glyph_line(line@, line_number as nat),
    {
        let v = to_chars(line);
        proof {
            assert(v@.subrange(0, v@.len() as int) == v@);
        }
        read_glyph_span(line, &v, 0, v.len(), line_number)
    }

    /// Parses a whole `.sfl` descriptor. Line 1 is the font name, line 2 the
    /// size and the line height, line 3 the atlas image (not kept), line 4 the
    /// number of glyph lines that follow; lines after those are ignored.
    pub fn parse(source: &str) -> (r: Result<BMFont, ParseError>)
        ensures
            font_outcome(r) == parse_font(source@),
    {
        broadcast use group_hash_axioms;

        let v = to_chars(source);
        let lines = line_spans(&v);
        let ghost ls = lines_of(v@);
        if lines.len() < 5 {
            return Err(ParseError::TooFewLines { lines: lines.len() });
        }
        proof {
            assert(ls == spans_view(v@, lines@));
            assert(ls[0] == v@.subrange(lines@[0].0 as int, lines@[0].1 as int));
            assert(ls[1] == v@.subrange(lines@[1].0 as int, lines@[1].1 as int));
            assert(ls[3] == v@.subrange(lines@[3].0 as int, lines@[3].1 as int));
        }
        let (a1, b1) = lines[1];
        let hdr = split_spans(&v, a1, b1, ' ');
        if hdr.len() != 2 {
            return Err(ParseError::MalformedHeader { tokens: hdr.len() });
        }
        proof {
            assert(pieces(ls[1], ' ')[0] == v@.subrange(hdr@[0].0 as int, hdr@[0].1 as int));
            assert(pieces(ls[1], ' ')[1] == v@.subrange(hdr@[1].0 as int, hdr@[1].1 as int));
        }
        let size = match parse_u32(&v, hdr[0].0, hdr[0].1) {
            Some(n) => n,
            None => {
                let text = source.substring_char(hdr[0].0, hdr[0].1).to_owned();
                return Err(ParseError::InvalidNumber { line: 2, field: Field::Size, text });
            },
        };
        let line_height = match parse_u32(&v, hdr[1].0, hdr[1].1) {
            Some(n) => n,
            None => {
                let text = source.substring_char(hdr[1].0, hdr[1].1).to_owned();
                return Err(ParseError::InvalidNumber { line: 2, field: Field::LineHeight, text });
            },
        };
        let (a3, b3) = lines[3];
        let count = match parse_u32(&v, a3, b3) {
            Some(n) => n,
            None => {
                let text = source.substring_char(a3, b3).to_owned();
                return Err(ParseError::InvalidNumber { line: 4, field: Field::CharacterCount, text });
            },
        };
        let available = lines.len() - 4;
        if (available as u64) < (count as u64) {
            return Err(ParseError::CharacterCountMismatch { actual: available, expected: count });
        }
        let n = count as usize;
        let mut chars: HashMap<u32, BMCharacter> = HashMap::new();
        let mut i: usize = 0;
        let ghost finish = |m: Map<u32, BMCharacter>|
            FontView { font_name: ls[0], chars: m, line_height, size };
        proof {
            assert(parse_font(source@) == match glyph_table(ls, n as nat) {
                Err(e) => Err(e),
                Ok(m) => Ok(finish(m)),
            });
        }
        while i < n
            invariant
                parse_font(source@) == match glyph_table(ls, n as nat) {
                    Err(e) => Err(e),
                    Ok(m) => Ok(finish(m)),
                },
                finish == (|m: Map<u32, BMCharacter>|
                    FontView { font_name: ls[0], chars: m, line_height, size }),
                v@ == source@,
                ls == lines_of(v@),
                ls == spans_view(v@, lines@),
                spans_within(lines@, 0, v@.len() as int),
                n == count,
                n + 4 <= lines@.len(),
                i <= n,
                glyph_table(ls, i as nat) == Ok::<Map<u32, BMCharacter>, ParseErrorView>(chars@),
            decreases n - i,
        {
            let (a, b) = lines[4 + i];
            proof {
                assert(ls[4 + i] == v@.subrange(a as int, b as int));
            }
            match read_glyph_span(source, &v, a, b, 5 + i) {
                Ok(g) => {
                    chars.insert(g.id, g);
                },
                Err(e) => {
                    proof {
                        assert(glyph_table(ls, (i + 1) as nat) == Err::<Map<u32, BMCharacter>, ParseErrorView>(e@));
                        lemma_glyph_table_error_persists(ls, (i + 1) as nat, n as nat);
                    }
                    return Err(e);
                },
            }
            i = i + 1;
        }
        let (a0, b0) = lines[0];
        let font_name = source.substring_char(a0, b0).to_owned();
        Ok(BMFont { font_name, chars, line_height, size })
    }
}

} // verus!
