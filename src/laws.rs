//! Facts about every descriptor, proved from the parser's specification.
use vstd::prelude::*;
use crate::font::{
    font_outcome, glyph_line, glyph_table, parse_font, BMCharacter, BMFont, FontView, ParseError,
    ParseErrorView,
};
use crate::text::{lines_of, pieces, u32_of};

verus! {

/// A descriptor with fewer than five lines is always rejected as too short.
pub proof fn lemma_too_few_lines(s: Seq<char>)
    requires
        lines_of(s).len() < 5,
    ensures
        parse_font(s) == Err::<FontView, ParseErrorView>(
            ParseErrorView::TooFewLines { lines: lines_of(s).len() },
        ),
{
}

/// A descriptor of at least five lines whose header holds two numbers and
/// whose count line declares no glyphs parses, with no glyphs.
pub proof fn lemma_no_glyphs(s: Seq<char>)
    requires
        lines_of(s).len() >= 5,
        pieces(lines_of(s)[1], ' ').len() == 2,
        u32_of(pieces(lines_of(s)[1], ' ')[0]) is Some,
        u32_of(pieces(lines_of(s)[1], ' ')[1]) is Some,
        u32_of(lines_of(s)[3]) == Some(0u32),
    ensures
        parse_font(s) is Ok,
        parse_font(s)->Ok_0.chars == Map::<u32, BMCharacter>::empty(),
        parse_font(s)->Ok_0.font_name == lines_of(s)[0],
{
    assert(glyph_table(lines_of(s), 0) == Ok::<Map<u32, BMCharacter>, ParseErrorView>(Map::empty()));
}

/// A descriptor of at least five lines whose second line does not hold
/// exactly two space-separated tokens is rejected for its header.
pub proof fn lemma_header_arity(s: Seq<char>)
    requires
        lines_of(s).len() >= 5,
        pieces(lines_of(s)[1], ' ').len() != 2,
    ensures
        parse_font(s) == Err::<FontView, ParseErrorView>(
            ParseErrorView::MalformedHeader { tokens: pieces(lines_of(s)[1], ' ').len() },
        ),
{
}

/// A descriptor whose header is sound but which declares more glyph lines
/// than follow its fourth line is rejected with both counts.
pub proof fn lemma_count_exceeds_lines(s: Seq<char>)
    requires
        lines_of(s).len() >= 5,
        pieces(lines_of(s)[1], ' ').len() == 2,
        u32_of(pieces(lines_of(s)[1], ' ')[0]) is Some,
        u32_of(pieces(lines_of(s)[1], ' ')[1]) is Some,
        u32_of(lines_of(s)[3]) is Some,
        lines_of(s).len() - 4 < u32_of(lines_of(s)[3])->0,
    ensures
        parse_font(s) == Err::<FontView, ParseErrorView>(
            ParseErrorView::CharacterCountMismatch {
                actual: (lines_of(s).len() - 4) as nat,
                expected: u32_of(lines_of(s)[3])->0,
            },
        ),
{
}

/// The glyph table of `n` lines reads only the lines `4..4 + n`.
proof fn lemma_glyph_table_reads_prefix(ls1: Seq<Seq<char>>, ls2: Seq<Seq<char>>, n: nat)
    requires
        forall|k: int| 4 <= k < 4 + n ==> ls1[k] == ls2[k],
    ensures
        glyph_table(ls1, n) == glyph_table(ls2, n),
    decreases n,
{
    if n > 0 {
        lemma_glyph_table_reads_prefix(ls1, ls2, (n - 1) as nat);
        assert(ls1[n + 3 as int] == ls2[n + 3 as int]);
    }
}

/// Lines after the declared glyph lines are never read: two descriptors whose
/// lines agree up to the last declared glyph line, and which both hold all the
/// declared glyph lines, parse alike.
pub proof fn lemma_trailing_lines_ignored(s1: Seq<char>, s2: Seq<char>)
    requires
        lines_of(s1).len() >= 5,
        lines_of(s2).len() >= 5,
        forall|k: int| 0 <= k < 4 ==> lines_of(s1)[k] == lines_of(s2)[k],
        u32_of(lines_of(s1)[3]) is Some,
        lines_of(s1).len() - 4 >= u32_of(lines_of(s1)[3])->0,
        lines_of(s2).len() - 4 >= u32_of(lines_of(s1)[3])->0,
        forall|k: int|
            4 <= k < 4 + u32_of(lines_of(s1)[3])->0 ==> lines_of(s1)[k] == lines_of(s2)[k],
    ensures
        parse_font(s1) == parse_font(s2),
{
    let ls1 = lines_of(s1);
    let ls2 = lines_of(s2);
    assert(ls1[0] == ls2[0] && ls1[1] == ls2[1] && ls1[3] == ls2[3]);
    lemma_glyph_table_reads_prefix(ls1, ls2, u32_of(ls1[3])->0 as nat);
}

/// A table that was built without error was built without error at every
/// shorter prefix too.
proof fn lemma_glyph_table_prefix_ok(ls: Seq<Seq<char>>, k: nat, n: nat)
    requires
        k <= n,
        glyph_table(ls, n) is Ok,
    ensures
        glyph_table(ls, k) is Ok,
    decreases n - k,
{
    if k < n {
        lemma_glyph_table_prefix_ok(ls, k, (n - 1) as nat);
    }
}

/// In a table built from `n` glyph lines, glyph line `i` is the entry for its
/// id when no later line of the `n` has that id.
proof fn lemma_glyph_table_last_wins(ls: Seq<Seq<char>>, n: nat, i: nat, g: BMCharacter)
    requires
        i < n,
        glyph_table(ls, n) is Ok,
        glyph_line(ls[i + 4 as int], i + 5) == Ok::<BMCharacter, ParseErrorView>(g),
        forall|j: nat|
            i < j < n ==> (#[trigger] glyph_line(ls[j + 4 as int], j + 5))->Ok_0.id != g.id,
    ensures
        glyph_table(ls, n)->Ok_0.contains_key(g.id),
        glyph_table(ls, n)->Ok_0[g.id] == g,
    decreases n,
{
    lemma_glyph_table_prefix_ok(ls, (n - 1) as nat, n);
    if n - 1 > i {
        lemma_glyph_table_last_wins(ls, (n - 1) as nat, i, g);
        let j = (n - 1) as nat;
        assert(glyph_line(ls[j + 4 as int], j + 5)->Ok_0.id != g.id);
    }
}

/// When a descriptor parses, each glyph line stands in the table under its id
/// unless a later glyph line has the same id: of glyph lines that share an id,
/// the last one wins.
pub proof fn lemma_last_glyph_wins(s: Seq<char>, i: nat, g: BMCharacter)
    requires
        parse_font(s) is Ok,
        i < u32_of(lines_of(s)[3])->0,
        glyph_line(lines_of(s)[i + 4 as int], i + 5) == Ok::<BMCharacter, ParseErrorView>(g),
        forall|j: nat|
            i < j < u32_of(lines_of(s)[3])->0 ==> (#[trigger] glyph_line(
                lines_of(s)[j + 4 as int],
                j + 5,
            ))->Ok_0.id != g.id,
    ensures
        parse_font(s)->Ok_0.chars.contains_key(g.id),
        parse_font(s)->Ok_0.chars[g.id] == g,
{
    let ls = lines_of(s);
    let n = u32_of(ls[3])->0 as nat;
    lemma_glyph_table_last_wins(ls, n, i, g);
}

/// Two parses of the same text give equal results, field by field.
pub proof fn lemma_parse_deterministic(
    s: Seq<char>,
    r1: Result<BMFont, ParseError>,
    r2: Result<BMFont, ParseError>,
)
    requires
        font_outcome(r1) == parse_font(s),
        font_outcome(r2) == parse_font(s),
    ensures
        r1 is Ok <==> r2 is Ok,
        r1 is Ok ==> {
            &&& r1->Ok_0.font_name@ == r2->Ok_0.font_name@
            &&& r1->Ok_0.chars@ == r2->Ok_0.chars@
            &&& r1->Ok_0.line_height == r2->Ok_0.line_height
            &&& r1->Ok_0.size == r2->Ok_0.size
        },
        r1 is Err ==> r1->Err_0@ == r2->Err_0@,
{
}

} // verus!
