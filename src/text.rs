//! Character-level helpers: line and token splitting, decimal numbers.
use vstd::prelude::*;
use vstd::std_specs::iter::IteratorSpec;

verus! {

/// Copies the characters of `s` into a vector, in order.
pub fn to_chars(s: &str) -> (v: Vec<char>)
    ensures
        v@ == s@,
{
    let n = s.unicode_len();
    let mut it = s.chars();
    let mut v: Vec<char> = Vec::new();
    proof {
        vstd::string::axiom_spec_iter(s);
    }
    let mut i: usize = 0;
    while i < n
        invariant
            n == s@.len(),
            i <= n,
            v@ == s@.subrange(0, i as int),
            it.remaining() == s@.subrange(i as int, n as int),
        decreases n - i,
    {
        let ghost before = it;
        let c = it.next();
        proof {
            vstd::string::next_postcondition(&before, &it, c);
            assert(s@.subrange(0, i + 1) == s@.subrange(0, i as int).push(s@[i as int]));
            assert(s@.subrange(i + 1, n as int) == s@.subrange(i as int, n as int).drop_first());
        }
        match c {
            Some(ch) => v.push(ch),
            None => {},
        }
        i = i + 1;
    }
    v
}


/// The pieces of `s` between occurrences of `sep`, as `str::split` gives them:
/// `k` separators give `k + 1` pieces, some of which may be empty.
pub open spec fn pieces(s: Seq<char>, sep: char) -> Seq<Seq<char>>
    decreases s.len(),
{
    if s.len() == 0 {
        seq![Seq::empty()]
    } else {
        let prev = pieces(s.drop_last(), sep);
        if s.last() == sep {
            prev.push(Seq::empty())
        } else {
            prev.update(prev.len() - 1, prev.last().push(s.last()))
        }
    }
}

/// There is always at least one piece.
pub proof fn lemma_pieces_nonempty(s: Seq<char>, sep: char)
    ensures
        pieces(s, sep).len() >= 1,
    decreases s.len(),
{
    if s.len() > 0 {
        lemma_pieces_nonempty(s.drop_last(), sep);
    }
}

/// The characters that a list of half-open ranges picks out of `v`.
pub open spec fn spans_view(v: Seq<char>, spans: Seq<(usize, usize)>) -> Seq<Seq<char>> {
    Seq::new(spans.len(), |j: int| v.subrange(spans[j].0 as int, spans[j].1 as int))
}

/// Every range lies within `lo..hi`.
pub open spec fn spans_within(spans: Seq<(usize, usize)>, lo: int, hi: int) -> bool {
    forall|j: int| 0 <= j < spans.len() ==> lo <= #[trigger] spans[j].0 <= spans[j].1 <= hi
}

/// Splits `v[lo..hi]` at each `sep`, giving the range of each piece in `v`.
pub fn split_spans(v: &Vec<char>, lo: usize, hi: usize, sep: char) -> (spans: Vec<(usize, usize)>)
    requires
        lo <= hi <= v@.len(),
    ensures
        spans_within(spans@, lo as int, hi as int),
        spans_view(v@, spans@) == pieces(v@.subrange(lo as int, hi as int), sep),
{
    let mut spans: Vec<(usize, usize)> = Vec::new();
    let mut start: usize = lo;
    let mut i: usize = lo;
    proof {
        assert(v@.subrange(lo as int, lo as int) == Seq::<char>::empty());
        assert(spans_view(v@, spans@) == Seq::<Seq<char>>::empty());
        assert(pieces(Seq::<char>::empty(), sep) == seq![Seq::<char>::empty()]);
    }
    while i < hi
        invariant
            lo <= start <= i <= hi <= v@.len(),
            spans_within(spans@, lo as int, start as int),
            spans_view(v@, spans@).push(v@.subrange(start as int, i as int))
                == pieces(v@.subrange(lo as int, i as int), sep),
        decreases hi - i,
    {
        let ghost before = spans_view(v@, spans@);
        proof {
            let t = v@.subrange(lo as int, i + 1);
            assert(t.drop_last() == v@.subrange(lo as int, i as int));
            assert(t.last() == v@[i as int]);
            lemma_pieces_nonempty(t.drop_last(), sep);
        }
        if v[i] == sep {
            spans.push((start, i));
            start = i + 1;
            proof {
                assert(spans_view(v@, spans@) == before.push(v@.subrange(spans@.last().0 as int, i as int)));
                assert(v@.subrange(start as int, i + 1) == Seq::<char>::empty());
            }
        } else {
            proof {
                assert(spans_view(v@, spans@) == before);
                assert(v@.subrange(start as int, i + 1) == v@.subrange(start as int, i as int).push(v@[i as int]));
            }
        }
        i = i + 1;
    }
    let ghost done = spans_view(v@, spans@);
    spans.push((start, hi));
    proof {
        assert(spans_view(v@, spans@) == done.push(v@.subrange(start as int, hi as int)));
    }
    spans
}


/// `t` without one trailing carriage return, if it has one.
pub open spec fn strip_cr(t: Seq<char>) -> Seq<char> {
    if t.len() > 0 && t.last() == '\r' {
        t.drop_last()
    } else {
        t
    }
}

/// The lines of `s`, as `str::lines` gives them: lines end at `\n` or `\r\n`,
/// and the final line ending is optional, so it opens no empty line after it.
/// A `\r` that no `\n` follows stays in the line.
pub open spec fn lines_of(s: Seq<char>) -> Seq<Seq<char>> {
    let p = pieces(s, '\n');
    let n = if p.last().len() == 0 {
        p.len() - 1
    } else {
        p.len() as int
    };
    Seq::new(n as nat, |i: int| if i + 1 < p.len() { strip_cr(p[i]) } else { p[i] })
}

/// Splits `v` into lines, giving the range of each line in `v`, without its line ending.
pub fn line_spans(v: &Vec<char>) -> (lines: Vec<(usize, usize)>)
    ensures
        spans_within(lines@, 0, v@.len() as int),
        spans_view(v@, lines@) == lines_of(v@),
{
    let spans = split_spans(v, 0, v.len(), '\n');
    proof {
        assert(v@.subrange(0, v@.len() as int) == v@);
        lemma_pieces_nonempty(v@, '\n');
    }
    let ghost p = pieces(v@, '\n');
    let last = spans[spans.len() - 1];
    let n: usize = if last.0 == last.1 { spans.len() - 1 } else { spans.len() };
    let mut lines: Vec<(usize, usize)> = Vec::new();
    let mut j: usize = 0;
    while j < n
        invariant
            p == pieces(v@, '\n'),
            n <= spans@.len() == p.len(),
            n == lines_of(v@).len(),
            spans_within(spans@, 0, v@.len() as int),
            spans_view(v@, spans@) == p,
            j <= n,
            lines@.len() == j,
            spans_within(lines@, 0, v@.len() as int),
            forall|k: int| 0 <= k < j ==> #[trigger] spans_view(v@, lines@)[k] == lines_of(v@)[k],
        decreases n - j,
    {
        let (a, b) = spans[j];
        let ghost prev = lines@;
        proof {
            assert(v@.subrange(a as int, b as int) == p[j as int]);
        }
        if j + 1 < spans.len() && a < b && v[b - 1] == '\r' {
            proof {
                assert(v@.subrange(a as int, b - 1) == p[j as int].drop_last());
            }
            lines.push((a, b - 1));
        } else {
            lines.push((a, b));
        }
        proof {
            assert forall|k: int| 0 <= k < j + 1 implies #[trigger] spans_view(v@, lines@)[k]
                == lines_of(v@)[k] by {
                if k < j {
                    assert(lines@[k] == prev[k]);
                    assert(spans_view(v@, prev)[k] == lines_of(v@)[k]);
                } else {
                    let pj = p[j as int];
                    assert(pj.len() == b - a);
                    assert(a < b ==> pj.last() == v@[b - 1]);
                }
            }
        }
        j = j + 1;
    }
    proof {
        assert(spans_view(v@, lines@) == lines_of(v@));
    }
    lines
}

/// An ASCII decimal digit.
pub open spec fn is_digit(c: char) -> bool {
    '0' <= c && c <= '9'
}

/// The value of a decimal digit.
pub open spec fn digit_value(c: char) -> nat {
    (c as u32 - '0' as u32) as nat
}

/// The value of a string of decimal digits, most significant first.
pub open spec fn digits_value(d: Seq<char>) -> nat
    decreases d.len(),
{
    if d.len() == 0 {
        0
    } else {
        digits_value(d.drop_last()) * 10 + digit_value(d.last())
    }
}

/// `t` without one leading plus sign, if it has one.
pub open spec fn unsigned_part(t: Seq<char>) -> Seq<char> {
    if t.len() > 0 && t[0] == '+' {
        t.drop_first()
    } else {
        t
    }
}

/// What `str::parse::<u32>` makes of `t`: an optional plus sign, then one or
/// more decimal digits whose value fits in 32 bits; anything else is no number.
pub open spec fn u32_of(t: Seq<char>) -> Option<u32> {
    let d = unsigned_part(t);
    if d.len() > 0 && (forall|i: int| 0 <= i < d.len() ==> is_digit(#[trigger] d[i]))
        && digits_value(d) <= u32::MAX {
        Some(digits_value(d) as u32)
    } else {
        None
    }
}

/// Reads `v[lo..hi]` as a decimal number that fits in 32 bits.
pub fn parse_u32(v: &Vec<char>, lo: usize, hi: usize) -> (r: Option<u32>)
    requires
        lo <= hi <= v@.len(),
    ensures
        r == u32_of(v@.subrange(lo as int, hi as int)),
{
    let ghost t = v@.subrange(lo as int, hi as int);
    let start: usize = if lo < hi && v[lo] == '+' { lo + 1 } else { lo };
    let ghost d = v@.subrange(start as int, hi as int);
    proof {
        assert(unsigned_part(t) == d);
    }
    if start == hi {
        return None;
    }
    let mut acc: u64 = 0;
    let mut i: usize = start;
    proof {
        assert(v@.subrange(start as int, start as int) == Seq::<char>::empty());
    }
    while i < hi
        invariant
            start <= i <= hi <= v@.len(),
            d == v@.subrange(start as int, hi as int),
            unsigned_part(v@.subrange(lo as int, hi as int)) == d,
            forall|k: int| start <= k < i ==> is_digit(#[trigger] v@[k]),
            acc == if digits_value(v@.subrange(start as int, i as int)) > u32::MAX {
                u32::MAX as nat + 1
            } else {
                digits_value(v@.subrange(start as int, i as int))
            },
        decreases hi - i,
    {
        let c = v[i];
        if !('0' <= c && c <= '9') {
            proof {
                assert(d[i - start] == c);
                assert(!is_digit(d[i - start]));
            }
            return None;
        }
        let dv: u64 = (c as u32 - '0' as u32) as u64;
        proof {
            let pre = v@.subrange(start as int, i as int);
            let next = v@.subrange(start as int, i + 1);
            assert(next.drop_last() == pre);
            assert(next.last() == c);
            assert(digits_value(next) == digits_value(pre) * 10 + dv);
        }
        if acc > u32::MAX as u64 {
            acc = u32::MAX as u64 + 1;
        } else {
            acc = acc * 10 + dv;
            if acc > u32::MAX as u64 {
                acc = u32::MAX as u64 + 1;
            }
        }
        i = i + 1;
    }
    proof {
        assert(v@.subrange(start as int, hi as int) == d);
        assert forall|k: int| 0 <= k < d.len() implies is_digit(#[trigger] d[k]) by {
            assert(d[k] == v@[start + k]);
        }
    }
    if acc > u32::MAX as u64 {
        None
    } else {
        Some(acc as u32)
    }
}

} // verus!
