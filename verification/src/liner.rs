//! Connector artwork: the vertical stubs and the one-row bracket that join a
//! parent's bottom anchor to its children's top anchors, drawn from a
//! thirteen-glyph table.

use vstd::prelude::*;
use crate::errors::RenderError;
use crate::text::{BufModel, LineBuffer, LinePosition, spec_write_line, spaces};
use crate::util::{spec_lines, lemma_spec_lines_whole};

verus! {

/// Glyph table and stub heights of the connector artwork.  The glyph slots
/// are: 0 top stub, 1 left end, 2 horizontal fill, 3 upward branch, 4 top
/// anchor at the left end, 5 top anchor at the right end, 6 downward branch,
/// 7 top anchor over a downward branch, 8 the same at the left end, 9 the
/// same at the right end, 10 right end, 11 single-column bracket, 12 bottom
/// stub.
pub struct DefaultLiner {
    pub connections: [char; 13],
    pub top_height: u32,
    pub bottom_height: u32,
    pub display_bracket: bool,
}

/// No glyph may be a line break: every drawn row is a single line.
pub open spec fn liner_wf(l: DefaultLiner) -> bool {
    forall|j: int| 0 <= j < 13 ==> l.connections@[j] != '\n'
}

/// The glyph drawn where the top anchor touches the bracket row.
pub open spec fn spec_bracket_top_char(
    glyphs: Seq<char>,
    i: int,
    start: int,
    end: int,
    bottoms: Seq<u32>,
) -> char {
    if bottoms.contains(i as u32) {
        if i == start {
            glyphs[8]
        } else if i == end {
            glyphs[9]
        } else {
            glyphs[7]
        }
    } else {
        if i == start {
            glyphs[4]
        } else if i == end {
            glyphs[5]
        } else {
            glyphs[6]
        }
    }
}

/// The glyph of bracket-row column `i`.
pub open spec fn spec_bracket_char(
    glyphs: Seq<char>,
    i: int,
    start: int,
    end: int,
    top: int,
    bottoms: Seq<u32>,
) -> char {
    if start == end {
        glyphs[11]
    } else if i == top {
        spec_bracket_top_char(glyphs, i, start, end, bottoms)
    } else if i == start {
        glyphs[1]
    } else if i == end {
        glyphs[10]
    } else if bottoms.contains(i as u32) {
        glyphs[6]
    } else {
        glyphs[2]
    }
}

/// The whole bracket row, spanning the columns `start..=end`.
pub open spec fn spec_bracket_line(
    glyphs: Seq<char>,
    start: int,
    end: int,
    top: int,
    bottoms: Seq<u32>,
) -> Seq<char> {
    Seq::new((end + 1 - start) as nat, |j: int| spec_bracket_char(glyphs, start + j, start, end, top, bottoms))
}

/// One row of the top stub: spaces up to the top anchor, then the stub glyph.
pub open spec fn spec_top_line(glyphs: Seq<char>, start: int, top: int) -> Seq<char> {
    spaces(top - start).push(glyphs[0])
}

/// One row of the bottom stubs: walking the anchor columns in order, spaces
/// are appended up to each anchor and a stub glyph on it.
pub open spec fn spec_bottom_line(glyphs: Seq<char>, bottoms: Seq<u32>, pos: int) -> Seq<char>
    decreases bottoms.len(),
{
    if bottoms.len() == 0 {
        Seq::empty()
    } else {
        let pad = if bottoms[0] > pos {
            bottoms[0] - pos
        } else {
            0
        };
        spaces(pad) + seq![glyphs[12]] + spec_bottom_line(glyphs, bottoms.drop_first(), bottoms[0] + 1)
    }
}

/// The same single-line write on `count` consecutive rows.
pub open spec fn spec_write_repeat(
    m: BufModel,
    row: int,
    col: int,
    line: Seq<char>,
    count: int,
) -> BufModel
    decreases count,
{
    if count <= 0 {
        m
    } else {
        spec_write_repeat(spec_write_line(m, row, col, line), row + 1, col, line, count - 1)
    }
}

/// Everything one connector draws: the top stub rows, the bracket row, then
/// the bottom stub rows.  The bracket row is always drawn at its row; when
/// the bracket display is off, the bottom stubs start on that same row and
/// overlay it.
pub open spec fn spec_print_connections(
    m: BufModel,
    l: DefaultLiner,
    row: int,
    top: int,
    bottoms: Seq<u32>,
) -> BufModel {
    let glyphs = l.connections@;
    let start = if top <= bottoms[0] {
        top as int
    } else {
        bottoms[0] as int
    };
    let end = if top >= bottoms.last() {
        top as int
    } else {
        bottoms.last() as int
    };
    let bracket_rows = if l.display_bracket {
        1int
    } else {
        0int
    };
    let m1 = spec_write_repeat(m, row, start, spec_top_line(glyphs, start, top), l.top_height as int);
    let m2 = spec_write_line(
        m1,
        row + l.top_height,
        start,
        spec_bracket_line(glyphs, start, end, top, bottoms),
    );
    spec_write_repeat(
        m2,
        row + l.top_height + bracket_rows,
        start,
        spec_bottom_line(glyphs, bottoms, start),
        l.bottom_height as int,
    )
}


/// Whether a column list holds the given column.
fn contains_col(v: &Vec<u32>, x: u32) -> (r: bool)
    ensures
        r == v@.contains(x),
{
    let mut i: usize = 0;
    while i < v.len()
        invariant
            i <= v@.len(),
            forall|j: int| 0 <= j < i ==> v@[j] != x,
        decreases v@.len() - i,
    {
        if v[i] == x {
            return true;
        }
        i += 1;
    }
    proof {
        assert(!v@.contains(x));
    }
    false
}

/// Writes one single-line string into the buffer.
fn write_one(buffer: &mut LineBuffer, row: u32, col: u32, line: &String)
    requires
        row < u32::MAX,
        line@.len() > 0,
        forall|j: int| 0 <= j < line@.len() ==> line@[j] != '\n',
    ensures
        final(buffer)@ == spec_write_line(old(buffer)@, row as int, col as int, line@),
{
    proof {
        lemma_spec_lines_whole(line@);
    }
    buffer.write(LinePosition::new(row, col), line.as_str());
    proof {
        let stepped = spec_write_line(old(buffer)@, row as int, col as int, line@);
        assert(seq![line@][0] == line@);
        assert(seq![line@].drop_first() =~= Seq::<Seq<char>>::empty());
        assert(crate::text::spec_write_lines(
            stepped,
            row as int + 1,
            col as int,
            Seq::<Seq<char>>::empty(),
        ) == stepped);
    }
}

/// Writes the same single-line string on `count` consecutive rows.
fn write_repeat(buffer: &mut LineBuffer, row: u32, col: u32, line: &String, count: u32)
    requires
        row + count <= u32::MAX,
        line@.len() > 0,
        forall|j: int| 0 <= j < line@.len() ==> line@[j] != '\n',
    ensures
        final(buffer)@ == spec_write_repeat(old(buffer)@, row as int, col as int, line@, count as int),
{
    let mut i: u32 = 0;
    while i < count
        invariant
            i <= count,
            spec_write_repeat(old(buffer)@, row as int, col as int, line@, count as int)
                == spec_write_repeat(buffer@, row + i, col as int, line@, count - i),
        decreases count - i,
    {
        write_one(buffer, row + i, col, line);
        i += 1;
    }
}

impl DefaultLiner {
    /// An untouched builder's liner, with the plain text glyph set.
    pub fn new_ascii() -> (r: DefaultLiner)
        ensures
            r.connections@ == spec_ascii_glyphs(),
            r.top_height == 0 && r.bottom_height == 1 && r.display_bracket,
            liner_wf(r),
    {
        let mut b = DefaultLiner::builder();
        b.ascii();
        b.build()
    }

    /// An untouched builder's liner, with the box-drawing glyph set.
    pub fn new_unicode() -> (r: DefaultLiner)
        ensures
            r.connections@ == spec_unicode_glyphs(),
            r.top_height == 0 && r.bottom_height == 1 && r.display_bracket,
            liner_wf(r),
    {
        let mut b = DefaultLiner::builder();
        b.unicode();
        b.build()
    }

    pub fn builder() -> (r: DefaultLinerBuilder)
        ensures
            r@.connections@ == spec_ascii_glyphs(),
            r@.top_height == 0 && r@.bottom_height == 1 && r@.display_bracket,
    {
        let r = DefaultLinerBuilder {
            connections: ascii_glyphs(),
            top_height: 0,
            bottom_height: 1,
            display_bracket: true,
        };
        r
    }

    fn build_top_line(&self, start: u32, top: u32) -> (r: String)
        requires
            start <= top,
        ensures
            r@ == spec_top_line(self.connections@, start as int, top as int),
    {
        let mut line = String::new();
        let mut k: u32 = start;
        proof {
            assert(line@ =~= spaces(0));
        }
        while k < top
            invariant
                start <= k <= top,
                line@ == spaces(k - start),
            decreases top - k,
        {
            line.append(" ");
            proof {
                reveal_strlit(" ");
                assert(spaces(k - start) + " "@ =~= spaces(k + 1 - start));
            }
            k += 1;
        }
        crate::util::push_char(&mut line, self.connections[0]);
        line
    }

    fn get_bracket_line_char_at_top_connection(
        &self,
        i: u32,
        start: u32,
        end: u32,
        bottom_connections: &Vec<u32>,
    ) -> (c: char)
        ensures
            c == spec_bracket_top_char(
                self.connections@,
                i as int,
                start as int,
                end as int,
                bottom_connections@,
            ),
    {
        if contains_col(bottom_connections, i) {
            if i == start {
                self.connections[8]
            } else if i == end {
                self.connections[9]
            } else {
                self.connections[7]
            }
        } else {
            if i == start {
                self.connections[4]
            } else if i == end {
                self.connections[5]
            } else {
                self.connections[6]
            }
        }
    }

    fn get_nth_bracket_line_char(
        &self,
        i: u32,
        start: u32,
        end: u32,
        top_connection: u32,
        bottom_connections: &Vec<u32>,
    ) -> (c: char)
        ensures
            c == spec_bracket_char(
                self.connections@,
                i as int,
                start as int,
                end as int,
                top_connection as int,
                bottom_connections@,
            ),
    {
        if start == end {
            self.connections[11]
        } else if i == top_connection {
            self.get_bracket_line_char_at_top_connection(i, start, end, bottom_connections)
        } else if i == start {
            self.connections[1]
        } else if i == end {
            self.connections[10]
        } else if contains_col(bottom_connections, i) {
            self.connections[6]
        } else {
            self.connections[2]
        }
    }

    fn build_bracket_line(
        &self,
        start: u32,
        end: u32,
        top_connection: u32,
        bottom_connections: &Vec<u32>,
    ) -> (r: String)
        requires
            start <= end,
        ensures
            r@ == spec_bracket_line(
                self.connections@,
                start as int,
                end as int,
                top_connection as int,
                bottom_connections@,
            ),
    {
        let len: u64 = end as u64 + 1 - start as u64;
        let mut line = String::new();
        let mut j: u64 = 0;
        let ghost target = spec_bracket_line(
            self.connections@,
            start as int,
            end as int,
            top_connection as int,
            bottom_connections@,
        );
        proof {
            assert(line@ =~= target.take(0));
        }
        while j < len
            invariant
                0 <= j <= len,
                len == end as int + 1 - start as int,
                target == spec_bracket_line(
                    self.connections@,
                    start as int,
                    end as int,
                    top_connection as int,
                    bottom_connections@,
                ),
                line@ == target.take(j as int),
            decreases len - j,
        {
            let c = self.get_nth_bracket_line_char(
                (start as u64 + j) as u32,
                start,
                end,
                top_connection,
                bottom_connections,
            );
            proof {
                assert(target.take(j as int).push(target[j as int]) =~= target.take(j + 1));
            }
            crate::util::push_char(&mut line, c);
            j += 1;
        }
        proof {
            assert(target.take(len as int) =~= target);
        }
        line
    }

    fn build_bottom_line(&self, start: u32, bottom_connections: &Vec<u32>) -> (r: String)
        ensures
            r@ == spec_bottom_line(self.connections@, bottom_connections@, start as int),
    {
        let ghost glyphs = self.connections@;
        let n = bottom_connections.len();
        let mut line = String::new();
        let mut pos: u64 = start as u64;
        let mut t: usize = 0;
        proof {
            assert(bottom_connections@.skip(0) =~= bottom_connections@);
            assert(Seq::<char>::empty() + spec_bottom_line(glyphs, bottom_connections@, pos as int)
                =~= spec_bottom_line(glyphs, bottom_connections@, pos as int));
        }
        while t < n
            invariant
                t <= n,
                n == bottom_connections@.len(),
                glyphs == self.connections@,
                spec_bottom_line(glyphs, bottom_connections@, start as int) == line@
                    + spec_bottom_line(glyphs, bottom_connections@.skip(t as int), pos as int),
                pos <= u32::MAX as u64 + 1,
            decreases n - t,
        {
            let bottom = bottom_connections[t];
            let ghost rest = bottom_connections@.skip(t as int);
            let ghost pad = if bottom > pos {
                bottom - pos
            } else {
                0int
            };
            let ghost pos0 = pos as int;
            let ghost line0 = line@;
            proof {
                assert(line0 + spaces(0) =~= line0);
            }
            while pos < bottom as u64
                invariant
                    pos0 <= pos,
                    pos as int <= (if bottom as int > pos0 {
                        bottom as int
                    } else {
                        pos0
                    }),
                    line@ == line0 + spaces(pos as int - pos0),
                decreases bottom as int - pos,
            {
                proof {
                    assert((line0 + spaces(pos as int - pos0)).push(' ') =~= line0 + spaces(
                        pos as int + 1 - pos0,
                    ));
                }
                crate::util::push_char(&mut line, ' ');
                pos = pos + 1;
            }
            proof {
                assert(line0 + spaces(0) =~= line0);
                assert(line@ == line0 + spaces(pad));
            }
            crate::util::push_char(&mut line, self.connections[12]);
            proof {
                assert(rest[0] == bottom);
                assert(rest.drop_first() =~= bottom_connections@.skip(t + 1));
                assert((line0 + spaces(pad)).push(glyphs[12]) =~= line0 + (spaces(pad) + seq![
                    glyphs[12],
                ]));
                assert(line0 + (spaces(pad) + seq![glyphs[12]]) + spec_bottom_line(
                    glyphs,
                    bottom_connections@.skip(t + 1),
                    bottom as int + 1,
                ) =~= line0 + ((spaces(pad) + seq![glyphs[12]]) + spec_bottom_line(
                    glyphs,
                    bottom_connections@.skip(t + 1),
                    bottom as int + 1,
                )));
            }
            pos = bottom as u64 + 1;
            t += 1;
        }
        proof {
            assert(bottom_connections@.skip(n as int) =~= Seq::<u32>::empty());
            assert(line@ + Seq::<char>::empty() =~= line@);
        }
        line
    }

}

/// Anything that draws the connector artwork between a parent anchor and its
/// children's anchors.
pub trait Liner: Sized {
    /// What a given liner asks of a connector request.
    spec fn print_connections_requires(&self, row: u32) -> bool;

    /// Draws one connector into the buffer, starting at `row`; returns the
    /// number of rows the artwork consumed.
    fn print_connections(
        &self,
        buffer: &mut LineBuffer,
        row: u32,
        top_connection: u32,
        bottom_connections: &Vec<u32>,
    ) -> (r: Result<u32, RenderError>)
        requires
            self.print_connections_requires(row),
    ;
}

impl Liner for DefaultLiner {
    /// The glyphs must not break rows, and the artwork's last row must fit
    /// the coordinate width.
    open spec fn print_connections_requires(&self, row: u32) -> bool {
        &&& liner_wf(*self)
        &&& row as int + self.top_height as int + 1 + self.bottom_height as int <= u32::MAX
    }

    /// Draws one connector into the buffer, starting at `row`: a top stub of
    /// configurable height above the parent's bottom anchor, the bracket row
    /// joining it to every child's top anchor, and a bottom stub under each
    /// child anchor.  Returns the number of rows the artwork consumed.  Fails
    /// exactly when the list of bottom anchors is empty, leaving the buffer
    /// untouched: a node cannot connect to zero children.
    fn print_connections(
        &self,
        buffer: &mut LineBuffer,
        row: u32,
        top_connection: u32,
        bottom_connections: &Vec<u32>,
    ) -> (r: Result<u32, RenderError>)
        ensures
            match r {
                Ok(h) => {
                    &&& bottom_connections@.len() > 0
                    &&& h == self.top_height as int + (if self.display_bracket {
                        1int
                    } else {
                        0int
                    }) + self.bottom_height as int
                    &&& final(buffer)@ == spec_print_connections(
                        old(buffer)@,
                        *self,
                        row as int,
                        top_connection as int,
                        bottom_connections@,
                    )
                },
                Err(e) => {
                    &&& e == RenderError::MalformedConnector
                    &&& bottom_connections@.len() == 0
                    &&& final(buffer)@ == old(buffer)@
                },
            },
    {
        if bottom_connections.len() == 0 {
            return Err(RenderError::MalformedConnector);
        }
        let first = bottom_connections[0];
        let last = bottom_connections[bottom_connections.len() - 1];
        let start = if top_connection <= first {
            top_connection
        } else {
            first
        };
        let end = if top_connection >= last {
            top_connection
        } else {
            last
        };
        proof {
            assert(bottom_connections@.last() == last);
        }
        let top_line = self.build_top_line(start, top_connection);
        proof {
            lemma_no_newline_top(self.connections@, start as int, top_connection as int);
        }
        write_repeat(buffer, row, start, &top_line, self.top_height);
        let bracket_line = self.build_bracket_line(start, end, top_connection, bottom_connections);
        proof {
            lemma_no_newline_bracket(
                self.connections@,
                start as int,
                end as int,
                top_connection as int,
                bottom_connections@,
            );
        }
        write_one(buffer, row + self.top_height, start, &bracket_line);
        let bracket_rows: u32 = if self.display_bracket {
            1
        } else {
            0
        };
        let bottom_line = self.build_bottom_line(start, bottom_connections);
        proof {
            lemma_no_newline_bottom(self.connections@, bottom_connections@, start as int);
        }
        write_repeat(
            buffer,
            row + self.top_height + bracket_rows,
            start,
            &bottom_line,
            self.bottom_height,
        );
        Ok(self.top_height + bracket_rows + self.bottom_height)
    }
}

/// No glyph being a line break, a top stub row holds none.
proof fn lemma_no_newline_top(glyphs: Seq<char>, start: int, top: int)
    requires
        glyphs.len() == 13,
        forall|j: int| 0 <= j < 13 ==> glyphs[j] != '\n',
        start <= top,
    ensures
        spec_top_line(glyphs, start, top).len() > 0,
        forall|j: int|
            0 <= j < spec_top_line(glyphs, start, top).len() ==> #[trigger] spec_top_line(
                glyphs,
                start,
                top,
            )[j] != '\n',
{
    let line = spec_top_line(glyphs, start, top);
    assert forall|j: int| 0 <= j < line.len() implies #[trigger] line[j] != '\n' by {
        if j < top - start {
            assert(line[j] == ' ');
        } else {
            assert(line[j] == glyphs[0]);
        }
    }
}

/// No glyph being a line break, a bracket row holds none.
proof fn lemma_no_newline_bracket(glyphs: Seq<char>, start: int, end: int, top: int, bottoms: Seq<u32>)
    requires
        glyphs.len() == 13,
        forall|j: int| 0 <= j < 13 ==> glyphs[j] != '\n',
        start <= end,
    ensures
        spec_bracket_line(glyphs, start, end, top, bottoms).len() > 0,
        forall|j: int|
            0 <= j < spec_bracket_line(glyphs, start, end, top, bottoms).len()
                ==> #[trigger] spec_bracket_line(glyphs, start, end, top, bottoms)[j] != '\n',
{
    let line = spec_bracket_line(glyphs, start, end, top, bottoms);
    assert forall|j: int| 0 <= j < line.len() implies #[trigger] line[j] != '\n' by {
        assert(line[j] == spec_bracket_char(glyphs, start + j, start, end, top, bottoms));
    }
}

/// No glyph being a line break, a bottom stub row holds none.
proof fn lemma_no_newline_bottom(glyphs: Seq<char>, bottoms: Seq<u32>, pos: int)
    requires
        glyphs.len() == 13,
        forall|j: int| 0 <= j < 13 ==> glyphs[j] != '\n',
        bottoms.len() > 0,
    ensures
        spec_bottom_line(glyphs, bottoms, pos).len() > 0,
        forall|j: int|
            0 <= j < spec_bottom_line(glyphs, bottoms, pos).len()
                ==> #[trigger] spec_bottom_line(glyphs, bottoms, pos)[j] != '\n',
    decreases bottoms.len(),
{
    let line = spec_bottom_line(glyphs, bottoms, pos);
    let pad = if bottoms[0] > pos {
        bottoms[0] - pos
    } else {
        0int
    };
    let head = spaces(pad) + seq![glyphs[12]];
    if bottoms.len() > 1 {
        lemma_no_newline_bottom(glyphs, bottoms.drop_first(), bottoms[0] as int + 1);
    }
    assert forall|j: int| 0 <= j < line.len() implies #[trigger] line[j] != '\n' by {
        if j < pad {
            assert(line[j] == ' ');
        } else if j == pad {
            assert(line[j] == glyphs[12]);
        } else {
            assert(line[j] == spec_bottom_line(glyphs, bottoms.drop_first(), bottoms[0] as int + 1)[j
                - pad - 1]);
        }
    }
}

/// The plain text glyph set.
pub open spec fn spec_ascii_glyphs() -> Seq<char> {
    seq!['|', ' ', '_', '|', '|', '|', '_', '|', '|', '|', ' ', '|', '|']
}

/// The box-drawing glyph set.
pub open spec fn spec_unicode_glyphs() -> Seq<char> {
    seq!['\u{2502}', '\u{250c}', '\u{2500}', '\u{2534}', '\u{2514}', '\u{2518}', '\u{252c}', '\u{253c}', '\u{251c}', '\u{2524}', '\u{2510}', '\u{2502}', '\u{2502}']
}

fn ascii_glyphs() -> (r: [char; 13])
    ensures
        r@ == spec_ascii_glyphs(),
{
    let r: [char; 13] = ['|', ' ', '_', '|', '|', '|', '_', '|', '|', '|', ' ', '|', '|'];
    proof {
        assert(r@ =~= spec_ascii_glyphs());
    }
    r
}

fn unicode_glyphs() -> (r: [char; 13])
    ensures
        r@ == spec_unicode_glyphs(),
{
    let r: [char; 13] = [
        '\u{2502}',
        '\u{250c}',
        '\u{2500}',
        '\u{2534}',
        '\u{2514}',
        '\u{2518}',
        '\u{252c}',
        '\u{253c}',
        '\u{251c}',
        '\u{2524}',
        '\u{2510}',
        '\u{2502}',
        '\u{2502}',
    ];
    proof {
        assert(r@ =~= spec_unicode_glyphs());
    }
    r
}

/// Step-by-step constructor for [`DefaultLiner`]: glyph set, both stub
/// heights, the bracket toggle, and every single glyph independently.
pub struct DefaultLinerBuilder {
    connections: [char; 13],
    top_height: u32,
    bottom_height: u32,
    display_bracket: bool,
}

impl DefaultLinerBuilder {
    /// The liner this builder would currently produce.
    pub closed spec fn view(&self) -> DefaultLiner {
        DefaultLiner {
            connections: self.connections,
            top_height: self.top_height,
            bottom_height: self.bottom_height,
            display_bracket: self.display_bracket,
        }
    }

    pub fn top_height(&mut self, top_height: u32)
        ensures
            final(self)@ == (DefaultLiner { top_height, ..old(self)@ }),
    {
        self.top_height = top_height;
    }

    pub fn bottom_height(&mut self, bottom_height: u32)
        ensures
            final(self)@ == (DefaultLiner { bottom_height, ..old(self)@ }),
    {
        self.bottom_height = bottom_height;
    }

    pub fn display_bracket(&mut self, display_bracket: bool)
        ensures
            final(self)@ == (DefaultLiner { display_bracket, ..old(self)@ }),
    {
        self.display_bracket = display_bracket;
    }

    pub fn unicode(&mut self)
        ensures
            final(self)@ == (DefaultLiner { connections: final(self)@.connections, ..old(self)@ }),
            final(self)@.connections@ == spec_unicode_glyphs(),
    {
        self.connections = unicode_glyphs();
    }

    pub fn ascii(&mut self)
        ensures
            final(self)@ == (DefaultLiner { connections: final(self)@.connections, ..old(self)@ }),
            final(self)@.connections@ == spec_ascii_glyphs(),
    {
        self.connections = ascii_glyphs();
    }

    /// Overrides the top stub glyph.
    pub fn top_connection_char(&mut self, c: char)
        ensures
            final(self)@.connections@ == old(self)@.connections@.update(0, c),
            final(self)@.top_height == old(self)@.top_height,
            final(self)@.bottom_height == old(self)@.bottom_height,
            final(self)@.display_bracket == old(self)@.display_bracket,
    {
        let updated: [char; 13] = [c, self.connections[1], self.connections[2], self.connections[3], self.connections[4], self.connections[5], self.connections[6], self.connections[7], self.connections[8], self.connections[9], self.connections[10], self.connections[11], self.connections[12]];
        proof {
            assert(updated@ =~= self.connections@.update(0, c));
        }
        self.connections = updated;
    }

    /// Overrides the bracket's left end.
    pub fn bracket_left_char(&mut self, c: char)
        ensures
            final(self)@.connections@ == old(self)@.connections@.update(1, c),
            final(self)@.top_height == old(self)@.top_height,
            final(self)@.bottom_height == old(self)@.bottom_height,
            final(self)@.display_bracket == old(self)@.display_bracket,
    {
        let updated: [char; 13] = [self.connections[0], c, self.connections[2], self.connections[3], self.connections[4], self.connections[5], self.connections[6], self.connections[7], self.connections[8], self.connections[9], self.connections[10], self.connections[11], self.connections[12]];
        proof {
            assert(updated@ =~= self.connections@.update(1, c));
        }
        self.connections = updated;
    }

    /// Overrides the horizontal fill.
    pub fn bracket_char(&mut self, c: char)
        ensures
            final(self)@.connections@ == old(self)@.connections@.update(2, c),
            final(self)@.top_height == old(self)@.top_height,
            final(self)@.bottom_height == old(self)@.bottom_height,
            final(self)@.display_bracket == old(self)@.display_bracket,
    {
        let updated: [char; 13] = [self.connections[0], self.connections[1], c, self.connections[3], self.connections[4], self.connections[5], self.connections[6], self.connections[7], self.connections[8], self.connections[9], self.connections[10], self.connections[11], self.connections[12]];
        proof {
            assert(updated@ =~= self.connections@.update(2, c));
        }
        self.connections = updated;
    }

    /// Overrides the upward branch.
    pub fn bracket_top_char(&mut self, c: char)
        ensures
            final(self)@.connections@ == old(self)@.connections@.update(3, c),
            final(self)@.top_height == old(self)@.top_height,
            final(self)@.bottom_height == old(self)@.bottom_height,
            final(self)@.display_bracket == old(self)@.display_bracket,
    {
        let updated: [char; 13] = [self.connections[0], self.connections[1], self.connections[2], c, self.connections[4], self.connections[5], self.connections[6], self.connections[7], self.connections[8], self.connections[9], self.connections[10], self.connections[11], self.connections[12]];
        proof {
            assert(updated@ =~= self.connections@.update(3, c));
        }
        self.connections = updated;
    }

    /// Overrides the top anchor at the left end.
    pub fn bracket_top_left_char(&mut self, c: char)
        ensures
            final(self)@.connections@ == old(self)@.connections@.update(4, c),
            final(self)@.top_height == old(self)@.top_height,
            final(self)@.bottom_height == old(self)@.bottom_height,
            final(self)@.display_bracket == old(self)@.display_bracket,
    {
        let updated: [char; 13] = [self.connections[0], self.connections[1], self.connections[2], self.connections[3], c, self.connections[5], self.connections[6], self.connections[7], self.connections[8], self.connections[9], self.connections[10], self.connections[11], self.connections[12]];
        proof {
            assert(updated@ =~= self.connections@.update(4, c));
        }
        self.connections = updated;
    }

    /// Overrides the top anchor at the right end.
    pub fn bracket_top_right_char(&mut self, c: char)
        ensures
            final(self)@.connections@ == old(self)@.connections@.update(5, c),
            final(self)@.top_height == old(self)@.top_height,
            final(self)@.bottom_height == old(self)@.bottom_height,
            final(self)@.display_bracket == old(self)@.display_bracket,
    {
        let updated: [char; 13] = [self.connections[0], self.connections[1], self.connections[2], self.connections[3], self.connections[4], c, self.connections[6], self.connections[7], self.connections[8], self.connections[9], self.connections[10], self.connections[11], self.connections[12]];
        proof {
            assert(updated@ =~= self.connections@.update(5, c));
        }
        self.connections = updated;
    }

    /// Overrides the downward branch.
    pub fn bracket_bottom_char(&mut self, c: char)
        ensures
            final(self)@.connections@ == old(self)@.connections@.update(6, c),
            final(self)@.top_height == old(self)@.top_height,
            final(self)@.bottom_height == old(self)@.bottom_height,
            final(self)@.display_bracket == old(self)@.display_bracket,
    {
        let updated: [char; 13] = [self.connections[0], self.connections[1], self.connections[2], self.connections[3], self.connections[4], self.connections[5], c, self.connections[7], self.connections[8], self.connections[9], self.connections[10], self.connections[11], self.connections[12]];
        proof {
            assert(updated@ =~= self.connections@.update(6, c));
        }
        self.connections = updated;
    }

    /// Overrides the top anchor over a downward branch.
    pub fn bracket_top_and_bottom_char(&mut self, c: char)
        ensures
            final(self)@.connections@ == old(self)@.connections@.update(7, c),
            final(self)@.top_height == old(self)@.top_height,
            final(self)@.bottom_height == old(self)@.bottom_height,
            final(self)@.display_bracket == old(self)@.display_bracket,
    {
        let updated: [char; 13] = [self.connections[0], self.connections[1], self.connections[2], self.connections[3], self.connections[4], self.connections[5], self.connections[6], c, self.connections[8], self.connections[9], self.connections[10], self.connections[11], self.connections[12]];
        proof {
            assert(updated@ =~= self.connections@.update(7, c));
        }
        self.connections = updated;
    }

    /// Overrides the top anchor over a downward branch at the left end.
    pub fn bracket_top_and_bottom_left_char(&mut self, c: char)
        ensures
            final(self)@.connections@ == old(self)@.connections@.update(8, c),
            final(self)@.top_height == old(self)@.top_height,
            final(self)@.bottom_height == old(self)@.bottom_height,
            final(self)@.display_bracket == old(self)@.display_bracket,
    {
        let updated: [char; 13] = [self.connections[0], self.connections[1], self.connections[2], self.connections[3], self.connections[4], self.connections[5], self.connections[6], self.connections[7], c, self.connections[9], self.connections[10], self.connections[11], self.connections[12]];
        proof {
            assert(updated@ =~= self.connections@.update(8, c));
        }
        self.connections = updated;
    }

    /// Overrides the top anchor over a downward branch at the right end.
    pub fn bracket_top_and_bottom_right_char(&mut self, c: char)
        ensures
            final(self)@.connections@ == old(self)@.connections@.update(9, c),
            final(self)@.top_height == old(self)@.top_height,
            final(self)@.bottom_height == old(self)@.bottom_height,
            final(self)@.display_bracket == old(self)@.display_bracket,
    {
        let updated: [char; 13] = [self.connections[0], self.connections[1], self.connections[2], self.connections[3], self.connections[4], self.connections[5], self.connections[6], self.connections[7], self.connections[8], c, self.connections[10], self.connections[11], self.connections[12]];
        proof {
            assert(updated@ =~= self.connections@.update(9, c));
        }
        self.connections = updated;
    }

    /// Overrides the bracket's right end.
    pub fn bracket_right_char(&mut self, c: char)
        ensures
            final(self)@.connections@ == old(self)@.connections@.update(10, c),
            final(self)@.top_height == old(self)@.top_height,
            final(self)@.bottom_height == old(self)@.bottom_height,
            final(self)@.display_bracket == old(self)@.display_bracket,
    {
        let updated: [char; 13] = [self.connections[0], self.connections[1], self.connections[2], self.connections[3], self.connections[4], self.connections[5], self.connections[6], self.connections[7], self.connections[8], self.connections[9], c, self.connections[11], self.connections[12]];
        proof {
            assert(updated@ =~= self.connections@.update(10, c));
        }
        self.connections = updated;
    }

    /// Overrides the single-column bracket.
    pub fn bracket_only_char(&mut self, c: char)
        ensures
            final(self)@.connections@ == old(self)@.connections@.update(11, c),
            final(self)@.top_height == old(self)@.top_height,
            final(self)@.bottom_height == old(self)@.bottom_height,
            final(self)@.display_bracket == old(self)@.display_bracket,
    {
        let updated: [char; 13] = [self.connections[0], self.connections[1], self.connections[2], self.connections[3], self.connections[4], self.connections[5], self.connections[6], self.connections[7], self.connections[8], self.connections[9], self.connections[10], c, self.connections[12]];
        proof {
            assert(updated@ =~= self.connections@.update(11, c));
        }
        self.connections = updated;
    }

    /// Overrides the bottom stub glyph.
    pub fn bottom_connection_char(&mut self, c: char)
        ensures
            final(self)@.connections@ == old(self)@.connections@.update(12, c),
            final(self)@.top_height == old(self)@.top_height,
            final(self)@.bottom_height == old(self)@.bottom_height,
            final(self)@.display_bracket == old(self)@.display_bracket,
    {
        let updated: [char; 13] = [self.connections[0], self.connections[1], self.connections[2], self.connections[3], self.connections[4], self.connections[5], self.connections[6], self.connections[7], self.connections[8], self.connections[9], self.connections[10], self.connections[11], c];
        proof {
            assert(updated@ =~= self.connections@.update(12, c));
        }
        self.connections = updated;
    }

    pub fn build(&self) -> (r: DefaultLiner)
        ensures
            r == self@,
    {
        DefaultLiner {
            connections: self.connections,
            top_height: self.top_height,
            bottom_height: self.bottom_height,
            display_bracket: self.display_bracket,
        }
    }
}

impl Default for DefaultLiner {
    /// An untouched builder's liner with the box-drawing glyph set.
    fn default() -> (r: DefaultLiner)
        ensures
            r.connections@ == spec_unicode_glyphs(),
            r.top_height == 0 && r.bottom_height == 1 && r.display_bracket,
            liner_wf(r),
    {
        let mut b = DefaultLiner::builder();
        b.unicode();
        b.build()
    }
}


/// Rows the connector artwork spans below its starting row: the top stub,
/// then the bracket row or the bottom stubs, whichever reaches lower.
pub open spec fn spec_connector_extent(l: DefaultLiner) -> int {
    l.top_height + crate::text::spec_max(
        1,
        (if l.display_bracket {
            1int
        } else {
            0int
        }) + l.bottom_height,
    )
}

/// Repeated single-line writes extend the canvas exactly to their last row,
/// or not at all.
pub proof fn lemma_write_repeat_len(m: BufModel, row: int, col: int, line: Seq<char>, count: int)
    requires
        row >= 0,
        count >= 0,
    ensures
        crate::text::canvas_len(spec_write_repeat(m, row, col, line, count)) == (if count == 0 {
            crate::text::canvas_len(m)
        } else {
            crate::text::spec_max(crate::text::canvas_len(m), row + count)
        }),
        spec_write_repeat(m, row, col, line, count).emitted == m.emitted,
    decreases count,
{
    if count > 0 {
        crate::text::lemma_write_line_len(m, row, col, line);
        lemma_write_repeat_len(spec_write_line(m, row, col, line), row + 1, col, line, count - 1);
    }
}

/// One connector extends the canvas exactly to the artwork's last row, or
/// not at all.
pub proof fn lemma_print_connections_len(
    m: BufModel,
    l: DefaultLiner,
    row: int,
    top: int,
    bottoms: Seq<u32>,
)
    requires
        row >= 0,
        bottoms.len() > 0,
    ensures
        crate::text::canvas_len(spec_print_connections(m, l, row, top, bottoms)) == crate::text::spec_max(
            crate::text::canvas_len(m),
            row + spec_connector_extent(l),
        ),
        spec_print_connections(m, l, row, top, bottoms).emitted == m.emitted,
{
    let glyphs = l.connections@;
    let start = if top <= bottoms[0] {
        top as int
    } else {
        bottoms[0] as int
    };
    let end = if top >= bottoms.last() {
        top as int
    } else {
        bottoms.last() as int
    };
    let bracket_rows = if l.display_bracket {
        1int
    } else {
        0int
    };
    let m1 = spec_write_repeat(m, row, start, spec_top_line(glyphs, start, top), l.top_height as int);
    let m2 = spec_write_line(
        m1,
        row + l.top_height,
        start,
        spec_bracket_line(glyphs, start, end, top, bottoms),
    );
    lemma_write_repeat_len(m, row, start, spec_top_line(glyphs, start, top), l.top_height as int);
    crate::text::lemma_write_line_len(
        m1,
        row + l.top_height,
        start,
        spec_bracket_line(glyphs, start, end, top, bottoms),
    );
    lemma_write_repeat_len(
        m2,
        row + l.top_height + bracket_rows,
        start,
        spec_bottom_line(glyphs, bottoms, start),
        l.bottom_height as int,
    );
}

} // verus!
