//! Content metrics: a node's text is split into lines and measured as a
//! rectangular block of character cells.

use vstd::prelude::*;
use crate::errors::RenderError;

verus! {

/// Index of the first `'\n'` at or after `i`, or `s.len()` if there is none.
pub open spec fn first_newline_from(s: Seq<char>, i: int) -> int
    decreases s.len() - i,
{
    if i < 0 || i >= s.len() {
        s.len() as int
    } else if s[i] == '\n' {
        i
    } else {
        first_newline_from(s, i + 1)
    }
}

/// One trailing carriage return is not part of a line's content.
pub open spec fn strip_cr(line: Seq<char>) -> Seq<char> {
    if line.len() > 0 && line.last() == '\r' {
        line.drop_last()
    } else {
        line
    }
}

/// The lines of a text block: segments between `'\n'` characters, each with
/// one `'\r'` before the break removed; a final segment without a line break
/// is kept as it stands, and a trailing break adds no empty line.
pub open spec fn spec_lines(s: Seq<char>) -> Seq<Seq<char>>
    decreases s.len(),
{
    if s.len() == 0 {
        Seq::empty()
    } else {
        let i = first_newline_from(s, 0);
        if i == s.len() {
            seq![s]
        } else {
            proof {
                lemma_first_newline_bounds(s, 0);
            }
            seq![strip_cr(s.take(i))] + spec_lines(s.skip(i + 1))
        }
    }
}

/// Width of the widest line; 0 when there are no lines.
pub open spec fn spec_max_line_width(lines: Seq<Seq<char>>) -> int
    decreases lines.len(),
{
    if lines.len() == 0 {
        0
    } else {
        let rest = spec_max_line_width(lines.drop_last());
        if lines.last().len() > rest {
            lines.last().len() as int
        } else {
            rest
        }
    }
}

/// Character-cell width of a text block: the length of its longest line.
pub open spec fn spec_content_width(s: Seq<char>) -> int {
    spec_max_line_width(spec_lines(s))
}

/// Character-cell height of a text block: its number of lines.
pub open spec fn spec_content_height(s: Seq<char>) -> int {
    spec_lines(s).len() as int
}

/// The views of a vector of owned lines.
pub open spec fn line_views(v: Seq<String>) -> Seq<Seq<char>> {
    v.map_values(|l: String| l@)
}

/// A block is never negatively wide.
pub proof fn lemma_max_line_width_nonneg(lines: Seq<Seq<char>>)
    ensures
        spec_max_line_width(lines) >= 0,
    decreases lines.len(),
{
    if lines.len() > 0 {
        lemma_max_line_width_nonneg(lines.drop_last());
    }
}

pub proof fn lemma_first_newline_bounds(s: Seq<char>, i: int)
    requires
        0 <= i <= s.len(),
    ensures
        i <= first_newline_from(s, i) <= s.len(),
        first_newline_from(s, i) < s.len() ==> s[first_newline_from(s, i)] == '\n',
        forall|j: int| i <= j < first_newline_from(s, i) ==> s[j] != '\n',
    decreases s.len() - i,
{
    if i < s.len() && s[i] != '\n' {
        lemma_first_newline_bounds(s, i + 1);
    }
}

/// A first newline at `i` splits the line list: one stripped line, then the
/// lines of the remainder.
proof fn lemma_spec_lines_step(s: Seq<char>, i: int)
    requires
        0 <= i < s.len(),
        s[i] == '\n',
        forall|j: int| 0 <= j < i ==> s[j] != '\n',
    ensures
        spec_lines(s) == seq![strip_cr(s.take(i))] + spec_lines(s.skip(i + 1)),
{
    lemma_first_newline_bounds(s, 0);
    assert(first_newline_from(s, 0) == i) by {
        lemma_first_newline_unique(s, 0, i);
    }
}

proof fn lemma_first_newline_unique(s: Seq<char>, k: int, i: int)
    requires
        0 <= k <= i < s.len(),
        s[i] == '\n',
        forall|j: int| k <= j < i ==> s[j] != '\n',
    ensures
        first_newline_from(s, k) == i,
    decreases i - k,
{
    if k < i {
        lemma_first_newline_unique(s, k + 1, i);
    }
}

/// A nonempty text without line breaks is one line, kept as it stands.
pub proof fn lemma_spec_lines_whole(s: Seq<char>)
    requires
        s.len() > 0,
        forall|j: int| 0 <= j < s.len() ==> s[j] != '\n',
    ensures
        spec_lines(s) == seq![s],
{
    lemma_first_newline_bounds(s, 0);
    if first_newline_from(s, 0) < s.len() {
        assert(s[first_newline_from(s, 0)] == '\n');
        assert(false);
    }
}

/// Relies on String::push: appends exactly one character to the string.
#[verifier::external_body]
pub(crate) fn push_char(s: &mut String, c: char)
    ensures
        final(s)@ == old(s)@.push(c),
{
    s.push(c);
}

/// Splits a text block into its lines.
pub fn split_lines(s: &str) -> (lines: Vec<String>)
    ensures
        line_views(lines@) == spec_lines(s@),
{
    let n = s.unicode_len();
    let mut lines: Vec<String> = Vec::new();
    let mut start: usize = 0;
    let mut i: usize = 0;
    proof {
        assert(line_views(lines@) =~= Seq::<Seq<char>>::empty());
        assert(s@.skip(0) =~= s@);
        assert(Seq::<Seq<char>>::empty() + spec_lines(s@) =~= spec_lines(s@));
    }
    while i < n
        invariant
            start <= i <= n,
            n == s@.len(),
            forall|j: int| start <= j < i ==> s@[j] != '\n',
            spec_lines(s@) == line_views(lines@) + spec_lines(s@.skip(start as int)),
        decreases n - i,
    {
        if s.get_char(i) == '\n' {
            let end = if i > start && s.get_char(i - 1) == '\r' {
                i - 1
            } else {
                i
            };
            let line = s.substring_char(start, end).to_owned();
            proof {
                let rest = s@.skip(start as int);
                assert(rest[i - start as int] == '\n');
                assert(forall|j: int| 0 <= j < i - start as int ==> rest[j] != '\n');
                lemma_spec_lines_step(rest, i - start as int);
                assert(rest.take(i - start as int) =~= s@.subrange(start as int, i as int));
                assert(strip_cr(s@.subrange(start as int, i as int)) =~= s@.subrange(
                    start as int,
                    end as int,
                ));
                assert(rest.skip(i - start as int + 1) =~= s@.skip(i + 1));
                assert(line@ == s@.subrange(start as int, end as int));
                assert(line_views(lines@.push(line)) =~= line_views(lines@) + seq![line@]);
                assert(line_views(lines@) + (seq![line@] + spec_lines(s@.skip(i + 1)))
                    =~= (line_views(lines@) + seq![line@]) + spec_lines(s@.skip(i + 1)));
            }
            lines.push(line);
            start = i + 1;
        }
        i += 1;
    }
    if start < n {
        let line = s.substring_char(start, n).to_owned();
        proof {
            let rest = s@.skip(start as int);
            assert(forall|j: int| 0 <= j < rest.len() ==> rest[j] != '\n');
            lemma_spec_lines_whole(rest);
            assert(rest =~= s@.subrange(start as int, n as int));
            assert(line_views(lines@.push(line)) =~= line_views(lines@) + seq![line@]);
            assert(line_views(lines@) + seq![rest] =~= line_views(lines@.push(line)));
        }
        lines.push(line);
    } else {
        proof {
            assert(s@.skip(start as int) =~= Seq::<char>::empty());
            assert(line_views(lines@) + spec_lines(Seq::<char>::empty()) =~= line_views(lines@));
        }
    }
    lines
}

/// Measures the bounding box of a text block: the width is the character
/// count of the longest line, the height the number of lines; an empty text
/// measures 0 by 0.  Fails with a range error exactly when a dimension does
/// not fit the coordinate width.
pub fn content_dimension(content: &str) -> (r: Result<(u32, u32), RenderError>)
    ensures
        match r {
            Ok(d) => d.0 == spec_content_width(content@) && d.1 == spec_content_height(content@),
            Err(e) => e == RenderError::NumericRange && (spec_content_width(content@) > u32::MAX
                || spec_content_height(content@) > u32::MAX),
        },
{
    let lines = split_lines(content);
    let mut max_w: usize = 0;
    let mut k: usize = 0;
    while k < lines.len()
        invariant
            k <= lines@.len(),
            line_views(lines@) == spec_lines(content@),
            max_w == spec_max_line_width(spec_lines(content@).take(k as int)),
        decreases lines@.len() - k,
    {
        let w = lines[k].as_str().unicode_len();
        proof {
            let pfx = spec_lines(content@).take(k + 1);
            assert(pfx.drop_last() =~= spec_lines(content@).take(k as int));
            assert(pfx.last() == lines@[k as int]@);
        }
        if w > max_w {
            max_w = w;
        }
        k += 1;
    }
    proof {
        assert(spec_lines(content@).take(lines@.len() as int) =~= spec_lines(content@));
    }
    if max_w > u32::MAX as usize {
        return Err(RenderError::NumericRange);
    }
    if lines.len() > u32::MAX as usize {
        return Err(RenderError::NumericRange);
    }
    Ok((max_w as u32, lines.len() as u32))
}

} // verus!
