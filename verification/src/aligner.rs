//! Horizontal geometry: where a node's content sits inside its reserved span,
//! where its connectors touch, and where its children's spans begin.  All
//! coordinates are character-cell columns.

use vstd::prelude::*;
use crate::config::HorizontalAlign;
use crate::errors::RenderError;
use crate::tree_node::{FlatNode, FlatRec, arena_wf, arena_rec_wf, flat_views, lemma_arena_wf_views, lemma_flat_views_index};
use crate::util::{spec_content_height, spec_content_width};

verus! {

/// Whether a connector anchors on the content block or on the reserved span.
#[derive(Debug, Clone, Copy, PartialEq, Eq, Structural)]
pub enum ConnectMode {
    Content,
    Context,
}

/// Which of a node's two connectors is being placed.
#[derive(Debug, Clone, Copy, PartialEq, Eq, Structural)]
pub enum VerticalDirection {
    Top,
    Bottom,
}

/// How one connector anchor is derived: an alignment within the chosen
/// reference (content or span) plus a constant offset.
#[derive(Debug, Clone, Copy, PartialEq, Eq, Structural)]
pub struct ConnectionDescriptor {
    pub align: HorizontalAlign,
    pub connect: ConnectMode,
    pub offset: u32,
}

/// The already-resolved inputs of one alignment computation.
#[derive(Debug, Clone, Copy, PartialEq, Eq, Structural)]
pub struct CalculationPrimitives {
    pub position: u32,
    pub width: u32,
    pub content_width: u32,
    pub max_left: u32,
}

/// Where a node lands: the left column of its content block and the columns
/// at which its upward and downward connectors touch it.
#[derive(Debug, Clone, Copy, PartialEq, Eq, Structural)]
pub struct Placement {
    pub left: u32,
    pub top_connection: u32,
    pub bottom_connection: u32,
}

/// `v` clamped into `[lo, hi]`.
pub open spec fn spec_clamp(v: int, lo: int, hi: int) -> int {
    if v < lo {
        lo
    } else if v > hi {
        hi
    } else {
        v
    }
}

/// Content placement policy of the aligner and both connector descriptors.
pub struct DefaultAligner {
    pub content_align: HorizontalAlign,
    pub content_offset: u32,
    pub top_connection: ConnectionDescriptor,
    pub bottom_connection: ConnectionDescriptor,
    pub children_align: HorizontalAlign,
    pub gap: u32,
}

/// The left edge of the content block: aligned within the reserved span,
/// shifted by the content offset, and clamped so the content stays inside the
/// span.
pub open spec fn spec_left(a: DefaultAligner, position: int, width: int, content_width: int) -> int {
    let max_left = position + width - content_width;
    let relative = match a.content_align {
        HorizontalAlign::Left => position,
        HorizontalAlign::Right => max_left,
        HorizontalAlign::Center => position + (width - content_width) / 2,
    };
    spec_clamp(relative + a.content_offset, 0, max_left)
}

/// A connector anchor: content mode anchors on the content block, context
/// mode on the reserved span itself, ignoring the content width; the result
/// is shifted by the descriptor's offset and clamped into the span.
pub open spec fn spec_connection(
    d: ConnectionDescriptor,
    left: int,
    position: int,
    width: int,
    content_width: int,
) -> int {
    let max_col = position + width - 1;
    let relative = match d.connect {
        ConnectMode::Content => match d.align {
            HorizontalAlign::Left => left,
            HorizontalAlign::Right => left + content_width - 1,
            HorizontalAlign::Center => left + content_width / 2,
        },
        ConnectMode::Context => match d.align {
            HorizontalAlign::Left => position,
            HorizontalAlign::Right => max_col,
            HorizontalAlign::Center => position + width / 2,
        },
    };
    spec_clamp(relative + d.offset, 0, max_col)
}

/// The full placement of one node.
pub open spec fn spec_align_node(
    a: DefaultAligner,
    position: int,
    width: int,
    content_width: int,
) -> Placement {
    let left = spec_left(a, position, width, content_width);
    Placement {
        left: left as u32,
        top_connection: spec_connection(a.top_connection, left, position, width, content_width) as u32,
        bottom_connection: spec_connection(
            a.bottom_connection,
            left,
            position,
            width,
            content_width,
        ) as u32,
    }
}

/// Offset of child `i`'s span from the start position: every earlier child's
/// subtree width plus one gap per earlier child.
pub open spec fn spec_child_offset(ws: Seq<int>, gap: int, i: int) -> int
    decreases i,
{
    if i <= 0 {
        0
    } else {
        spec_child_offset(ws, gap, i - 1) + gap + ws[i - 1]
    }
}

/// Total span of a child list: the subtree widths plus one gap between each
/// pair of neighbours; an empty list spans nothing.
pub open spec fn spec_children_span(ws: Seq<int>, gap: int) -> int {
    if ws.len() == 0 {
        0
    } else {
        spec_child_offset(ws, gap, ws.len() as int - 1) + ws[ws.len() - 1]
    }
}

/// The shift applied to every child so that a narrow child list sits inside a
/// wider parent span; never negative.
pub open spec fn spec_children_shift(align: HorizontalAlign, parent_width: int, span: int) -> int {
    let slack = match align {
        HorizontalAlign::Left => 0,
        HorizontalAlign::Right => parent_width - span,
        HorizontalAlign::Center => (parent_width - span) / 2,
    };
    if slack > 0 {
        slack
    } else {
        0
    }
}

/// Every column that laying out this child list produces fits the
/// coordinate width.
pub open spec fn spec_align_children_fits(
    parent_width: int,
    ws: Seq<int>,
    gap: int,
    position: int,
) -> bool {
    &&& spec_children_span(ws, gap) <= u32::MAX
    &&& position + spec_children_span(ws, gap) <= u32::MAX
    &&& position + parent_width <= u32::MAX
}

/// A partial accumulation never exceeds the full span.
pub proof fn lemma_span_partial(ws: Seq<int>, gap: int, k: int)
    requires
        0 < k <= ws.len(),
        gap >= 0,
        forall|i: int| 0 <= i < ws.len() ==> ws[i] >= 0,
    ensures
        spec_child_offset(ws, gap, k - 1) + ws[k - 1] <= spec_children_span(ws, gap),
{
    if k == ws.len() {
    } else {
        lemma_child_offset_mono(ws, gap, k, ws.len() as int - 1);
        assert(spec_child_offset(ws, gap, k) == spec_child_offset(ws, gap, k - 1) + gap + ws[k
            - 1]);
    }
}

/// The recorded subtree widths of a child list, as integers.
pub open spec fn widths_of(children: Seq<usize>, wm: Seq<u32>) -> Seq<int> {
    children.map_values(|c: usize| wm[c as int] as int)
}

/// A child offset is never negative.
pub proof fn lemma_child_offset_nonneg(ws: Seq<int>, gap: int, k: int)
    requires
        0 <= k <= ws.len(),
        gap >= 0,
        forall|i: int| 0 <= i < ws.len() ==> ws[i] >= 0,
    ensures
        spec_child_offset(ws, gap, k) >= 0,
    decreases k,
{
    if k > 0 {
        lemma_child_offset_nonneg(ws, gap, k - 1);
    }
}

/// Offsets are monotone in the child index.
pub proof fn lemma_child_offset_mono(ws: Seq<int>, gap: int, j: int, k: int)
    requires
        0 <= j <= k <= ws.len(),
        gap >= 0,
        forall|i: int| 0 <= i < ws.len() ==> ws[i] >= 0,
    ensures
        spec_child_offset(ws, gap, j) <= spec_child_offset(ws, gap, k),
    decreases k - j,
{
    if j < k {
        lemma_child_offset_mono(ws, gap, j, k - 1);
    }
}

/// No child starts beyond the list's total span.
pub proof fn lemma_child_offset_le_span(ws: Seq<int>, gap: int, k: int)
    requires
        0 <= k < ws.len(),
        gap >= 0,
        forall|i: int| 0 <= i < ws.len() ==> ws[i] >= 0,
    ensures
        spec_child_offset(ws, gap, k) <= spec_children_span(ws, gap),
{
    lemma_child_offset_mono(ws, gap, k, ws.len() as int - 1);
}

/// Width required by node `i`'s subtree: enough for its own content and for
/// all its children's spans with gaps.
pub open spec fn spec_subtree_width(arena: Seq<FlatRec>, gap: int, i: int) -> int
    decreases i, arena[i].children.len() + 1,
        when arena_rec_wf(arena) && 0 <= i < arena.len()
{
    let span = spec_node_children_span(arena, gap, i, arena[i].children.len() as int);
    let cw = spec_content_width(arena[i].content);
    if cw > span {
        cw
    } else {
        span
    }
}

/// Span of the first `k` children of node `i`.
pub open spec fn spec_node_children_span(arena: Seq<FlatRec>, gap: int, i: int, k: int) -> int
    decreases i, k,
        when arena_rec_wf(arena) && 0 <= i < arena.len() && k <= arena[i].children.len()
{
    if k <= 0 {
        0
    } else {
        spec_node_children_span(arena, gap, i, k - 1) + (if k > 1 {
            gap
        } else {
            0
        }) + spec_subtree_width(arena, gap, arena[i].children[k - 1])
    }
}

/// Every subtree width and content height fits the coordinate width.
pub open spec fn spec_widths_fit(arena: Seq<FlatRec>, gap: int) -> bool {
    forall|i: int|
        0 <= i < arena.len() ==> spec_subtree_width(arena, gap, i) <= u32::MAX
            && spec_content_height(#[trigger] arena[i].content) <= u32::MAX
}

/// Subtree widths and children spans are never negative.
pub proof fn lemma_subtree_width_nonneg(arena: Seq<FlatRec>, gap: int, i: int)
    requires
        arena_rec_wf(arena),
        0 <= i < arena.len(),
        gap >= 0,
    ensures
        spec_subtree_width(arena, gap, i) >= 0,
        spec_subtree_width(arena, gap, i) >= spec_content_width(arena[i].content),
    decreases i, arena[i].children.len() + 1,
{
    crate::util::lemma_max_line_width_nonneg(crate::util::spec_lines(arena[i].content));
    lemma_node_children_span_nonneg(arena, gap, i, arena[i].children.len() as int);
}

/// A child-list span grows with each further child.
pub proof fn lemma_node_children_span_nonneg(arena: Seq<FlatRec>, gap: int, i: int, k: int)
    requires
        arena_rec_wf(arena),
        0 <= i < arena.len(),
        0 <= k <= arena[i].children.len(),
        gap >= 0,
    ensures
        spec_node_children_span(arena, gap, i, k) >= 0,
        forall|k2: int|
            0 <= k2 <= k ==> #[trigger] spec_node_children_span(arena, gap, i, k2)
                <= spec_node_children_span(arena, gap, i, k),
    decreases i, k,
{
    if k > 0 {
        lemma_node_children_span_nonneg(arena, gap, i, k - 1);
        lemma_subtree_width_nonneg(arena, gap, arena[i].children[k - 1]);
    }
}

/// A node is at least as wide as its content and as its children's total
/// span: the two lower bounds every reserved span obeys.
pub proof fn lemma_node_width_bounds(arena: Seq<FlatRec>, gap: int, i: int)
    requires
        arena_rec_wf(arena),
        0 <= i < arena.len(),
        gap >= 0,
    ensures
        spec_subtree_width(arena, gap, i) >= spec_content_width(arena[i].content),
        spec_subtree_width(arena, gap, i) >= spec_node_children_span(
            arena,
            gap,
            i,
            arena[i].children.len() as int,
        ),
{
    lemma_subtree_width_nonneg(arena, gap, i);
}

/// Clamps `value` into `[lo, hi]`.
fn restrict_i64(value: i64, lo: i64, hi: i64) -> (r: i64)
    requires
        lo <= hi,
    ensures
        r == spec_clamp(value as int, lo as int, hi as int),
{
    if value < lo {
        lo
    } else if value > hi {
        hi
    } else {
        value
    }
}

/// Anything that computes the horizontal geometry: node placements, child
/// positions and the width pass.
pub trait Aligner: Sized {
    /// What a given aligner asks of a node placement request.
    spec fn align_node_requires(&self, position: u32, width: u32, content_width: u32) -> bool;

    /// Places one node within its reserved span.
    fn align_node(&self, position: u32, width: u32, content_width: u32) -> (r: Placement)
        requires
            self.align_node_requires(position, width, content_width),
    ;

    /// Lays a node's children out left to right from `position`.
    fn align_children(
        &self,
        parent: usize,
        children: &Vec<usize>,
        position: u32,
        width_map: &Vec<u32>,
    ) -> (r: Result<Vec<u32>, RenderError>);

    /// What a given aligner asks of a width pass.
    spec fn collect_widths_requires(&self, arena: &Vec<FlatNode>) -> bool;

    /// The bottom-up width pass over a flattened tree.
    fn collect_widths(&self, arena: &Vec<FlatNode>) -> (r: Result<(Vec<u32>, u32), RenderError>)
        requires
            self.collect_widths_requires(arena),
    ;
}

impl DefaultAligner {
    /// A centered aligner with the given gap between neighbouring children.
    pub fn new(align: HorizontalAlign, gap: u32) -> (r: DefaultAligner)
        ensures
            r == spec_aligner_from(align, gap),
    {
        let mut b = DefaultAligner::builder();
        b.align(align);
        b.gap(gap);
        b.build()
    }

    /// A centered aligner with gap 1.
    pub fn from_align(align: HorizontalAlign) -> (r: DefaultAligner)
        ensures
            r == spec_aligner_from(align, 1),
    {
        DefaultAligner::new(align, 1)
    }

    pub fn builder() -> (r: DefaultAlignerBuilder)
        ensures
            r@ == spec_default_aligner(),
    {
        DefaultAlignerBuilder {
            content_align: HorizontalAlign::Center,
            content_offset: 0,
            top_connection: ConnectionDescriptor {
                align: HorizontalAlign::Center,
                connect: ConnectMode::Content,
                offset: 0,
            },
            bottom_connection: ConnectionDescriptor {
                align: HorizontalAlign::Center,
                connect: ConnectMode::Content,
                offset: 0,
            },
            children_align: HorizontalAlign::Center,
            gap: 1,
        }
    }

    fn calculate_left(&self, p: CalculationPrimitives) -> (r: u32)
        requires
            p.content_width <= p.width,
            p.position + p.width <= u32::MAX,
            p.max_left == p.position + p.width - p.content_width,
        ensures
            r == spec_left(*self, p.position as int, p.width as int, p.content_width as int),
    {
        let relative_left: i64 = match self.content_align {
            HorizontalAlign::Left => p.position as i64,
            HorizontalAlign::Right => p.max_left as i64,
            HorizontalAlign::Center => p.position as i64 + (p.width as i64 - p.content_width as i64)
                / 2,
        };
        restrict_i64(relative_left + self.content_offset as i64, 0, p.max_left as i64) as u32
    }

    fn calculate_vertical_connection(
        &self,
        left: u32,
        p: CalculationPrimitives,
        vertical_direction: VerticalDirection,
    ) -> (r: u32)
        requires
            p.content_width <= p.width,
            p.width >= 1,
            p.position + p.width <= u32::MAX,
            p.max_left == p.position + p.width - 1,
            left <= p.position + p.width,
        ensures
            r == spec_connection(
                match vertical_direction {
                    VerticalDirection::Top => self.top_connection,
                    VerticalDirection::Bottom => self.bottom_connection,
                },
                left as int,
                p.position as int,
                p.width as int,
                p.content_width as int,
            ),
    {
        let d = match vertical_direction {
            VerticalDirection::Top => self.top_connection,
            VerticalDirection::Bottom => self.bottom_connection,
        };
        let relative: i64 = match d.connect {
            ConnectMode::Content => match d.align {
                HorizontalAlign::Left => left as i64,
                HorizontalAlign::Right => left as i64 + p.content_width as i64 - 1,
                HorizontalAlign::Center => left as i64 + (p.content_width / 2) as i64,
            },
            ConnectMode::Context => match d.align {
                HorizontalAlign::Left => p.position as i64,
                HorizontalAlign::Right => p.max_left as i64,
                HorizontalAlign::Center => p.position as i64 + (p.width / 2) as i64,
            },
        };
        restrict_i64(relative + d.offset as i64, 0, p.max_left as i64) as u32
    }
}

impl Aligner for DefaultAligner {
    /// The content must fit its span, the span must be at least one column
    /// wide, and its right end must fit the coordinate width.
    open spec fn align_node_requires(&self, position: u32, width: u32, content_width: u32) -> bool {
        &&& content_width <= width
        &&& width >= 1
        &&& position + width <= u32::MAX
    }

    /// Places one node: given the left end of its reserved span, the span's
    /// width and the node's content width, yields the content's left column
    /// and both connector columns.
    fn align_node(&self, position: u32, width: u32, content_width: u32) -> (r: Placement)
        ensures
            r == spec_align_node(*self, position as int, width as int, content_width as int),
            r.left <= position + width - content_width,
            r.top_connection <= position + width - 1,
            r.bottom_connection <= position + width - 1,
    {
        let content_max_left = position + width - content_width;
        let connection_max_left = position + width - 1;
        let left = self.calculate_left(
            CalculationPrimitives { position, width, content_width, max_left: content_max_left },
        );
        Placement {
            left,
            top_connection: self.calculate_vertical_connection(
                left,
                CalculationPrimitives {
                    position,
                    width,
                    content_width,
                    max_left: connection_max_left,
                },
                VerticalDirection::Top,
            ),
            bottom_connection: self.calculate_vertical_connection(
                left,
                CalculationPrimitives {
                    position,
                    width,
                    content_width,
                    max_left: connection_max_left,
                },
                VerticalDirection::Bottom,
            ),
        }
    }

    /// Lays the children of `parent` left to right from `position`, one
    /// subtree width each plus one gap between neighbours, then shifts the
    /// whole list right when it is narrower than the parent's span and the
    /// children alignment asks for it.  Fails with a lookup error when the
    /// parent or a child is missing from the width map, and with a range
    /// error when a column would not fit the coordinate width.
    fn align_children(
        &self,
        parent: usize,
        children: &Vec<usize>,
        position: u32,
        width_map: &Vec<u32>,
    ) -> (r: Result<Vec<u32>, RenderError>)
        ensures
            match r {
                Ok(v) => {
                    &&& parent < width_map@.len()
                    &&& forall|k: int|
                        0 <= k < children@.len() ==> #[trigger] children@[k] < width_map@.len()
                    &&& spec_align_children_fits(
                        width_map@[parent as int] as int,
                        widths_of(children@, width_map@),
                        self.gap as int,
                        position as int,
                    )
                    &&& v@.len() == children@.len()
                    &&& forall|k: int|
                        0 <= k < children@.len() ==> #[trigger] v@[k] == position
                            + spec_child_offset(
                            widths_of(children@, width_map@),
                            self.gap as int,
                            k,
                        ) + spec_children_shift(
                            self.children_align,
                            width_map@[parent as int] as int,
                            spec_children_span(widths_of(children@, width_map@), self.gap as int),
                        )
                },
                Err(e) => {
                    if parent >= width_map@.len() || exists|k: int|
                        0 <= k < children@.len() && #[trigger] children@[k] >= width_map@.len() {
                        e == RenderError::GeometryLookup
                    } else {
                        e == RenderError::NumericRange && !spec_align_children_fits(
                            width_map@[parent as int] as int,
                            widths_of(children@, width_map@),
                            self.gap as int,
                            position as int,
                        )
                    }
                },
            },
    {
        if parent >= width_map.len() {
            return Err(RenderError::GeometryLookup);
        }
        let parent_width = width_map[parent];
        let n = children.len();
        let mut k: usize = 0;
        while k < n
            invariant
                k <= n,
                n == children@.len(),
                forall|j: int| 0 <= j < k ==> #[trigger] children@[j] < width_map@.len(),
            decreases n - k,
        {
            if children[k] >= width_map.len() {
                return Err(RenderError::GeometryLookup);
            }
            k += 1;
        }
        let ghost ws = widths_of(children@, width_map@);
        proof {
            assert(ws.len() == children@.len());
            assert(forall|i: int| 0 <= i < ws.len() ==> #[trigger] ws[i] >= 0);
        }
        let mut span: u64 = 0;
        let mut k: usize = 0;
        while k < n
            invariant
                k <= n,
                n == children@.len(),
                ws == widths_of(children@, width_map@),
                parent < width_map@.len(),
                forall|j: int| 0 <= j < n ==> #[trigger] children@[j] < width_map@.len(),
                k == 0 ==> span == 0,
                k > 0 ==> span == spec_child_offset(ws, self.gap as int, k - 1) + ws[k - 1],
                span <= u32::MAX,
            decreases n - k,
        {
            if k > 0 {
                span = span + self.gap as u64;
            }
            span = span + width_map[children[k]] as u64;
            if span > u32::MAX as u64 {
                proof {
                    lemma_span_partial(ws, self.gap as int, k as int + 1);
                }
                return Err(RenderError::NumericRange);
            }
            k += 1;
        }
        proof {
            if n > 0 {
                assert(span == spec_children_span(ws, self.gap as int));
            } else {
                assert(span == spec_children_span(ws, self.gap as int));
            }
        }
        if position as u64 + span > u32::MAX as u64 {
            return Err(RenderError::NumericRange);
        }
        if position as u64 + parent_width as u64 > u32::MAX as u64 {
            return Err(RenderError::NumericRange);
        }
        let shift: u64 = match self.children_align {
            HorizontalAlign::Left => 0,
            HorizontalAlign::Right => {
                if (parent_width as u64) > span {
                    parent_width as u64 - span
                } else {
                    0
                }
            },
            HorizontalAlign::Center => {
                if (parent_width as u64) > span {
                    (parent_width as u64 - span) / 2
                } else {
                    0
                }
            },
        };
        proof {
            assert(shift == spec_children_shift(
                self.children_align,
                parent_width as int,
                span as int,
            ));
        }
        let mut res: Vec<u32> = Vec::new();
        let mut acc: u64 = 0;
        let mut k: usize = 0;
        while k < n
            invariant
                k <= n,
                n == children@.len(),
                ws == widths_of(children@, width_map@),
                parent < width_map@.len(),
                forall|j: int| 0 <= j < n ==> #[trigger] children@[j] < width_map@.len(),
                acc == spec_child_offset(ws, self.gap as int, k as int),
                span == spec_children_span(ws, self.gap as int),
                span <= u32::MAX,
                position + span <= u32::MAX,
                position + parent_width <= u32::MAX,
                shift == spec_children_shift(self.children_align, parent_width as int, span as int),
                res@.len() == k,
                forall|j: int|
                    0 <= j < k ==> #[trigger] res@[j] == position + spec_child_offset(
                        ws,
                        self.gap as int,
                        j,
                    ) + shift,
            decreases n - k,
        {
            proof {
                lemma_child_offset_nonneg(ws, self.gap as int, k as int);
                lemma_child_offset_le_span(ws, self.gap as int, k as int);
            }
            let col = (position as u64 + acc + shift) as u32;
            res.push(col);
            acc = acc + self.gap as u64 + width_map[children[k]] as u64;
            k += 1;
        }
        Ok(res)
    }

    open spec fn collect_widths_requires(&self, arena: &Vec<FlatNode>) -> bool {
        &&& arena_wf(arena@)
        &&& arena@.len() >= 1
    }

    /// The bottom-up width pass: computes every node's subtree width,
    /// children before parents, and returns the width map together with the
    /// root's width, the span the printer reserves for it.  Fails with a
    /// range error exactly when some subtree width or content height does not
    /// fit the coordinate width.
    fn collect_widths(&self, arena: &Vec<FlatNode>) -> (r: Result<(Vec<u32>, u32), RenderError>)
        ensures
            match r {
                Ok(p) => {
                    &&& spec_widths_fit(flat_views(arena@), self.gap as int)
                    &&& p.0@.len() == arena@.len()
                    &&& forall|i: int|
                        0 <= i < arena@.len() ==> #[trigger] p.0@[i] == spec_subtree_width(
                            flat_views(arena@),
                            self.gap as int,
                            i,
                        )
                    &&& p.1 == p.0@[arena@.len() - 1]
                },
                Err(e) => e == RenderError::NumericRange && !spec_widths_fit(
                    flat_views(arena@),
                    self.gap as int,
                ),
            },
    {
        let ghost fv = flat_views(arena@);
        proof {
            lemma_arena_wf_views(arena@);
        }
        let n = arena.len();
        let mut widths: Vec<u32> = Vec::new();
        let mut i: usize = 0;
        while i < n
            invariant
                i <= n,
                n == arena@.len(),
                arena_wf(arena@),
                fv == flat_views(arena@),
                arena_rec_wf(fv),
                fv.len() == n,
                widths@.len() == i,
                forall|j: int|
                    0 <= j < i ==> #[trigger] widths@[j] == spec_subtree_width(
                        fv,
                        self.gap as int,
                        j,
                    ),
                forall|j: int|
                    0 <= j < i ==> spec_content_height(#[trigger] fv[j].content) <= u32::MAX,
            decreases n - i,
        {
            let node = &arena[i];
            let ghost g = self.gap as int;
            proof {
                lemma_flat_views_index(arena@, i as int);
            }
            let nc = node.children.len();
            let mut span: u64 = 0;
            let mut k: usize = 0;
            proof {
                lemma_node_children_span_nonneg(fv, g, i as int, 0);
            }
            while k < nc
                invariant
                    k <= nc,
                    n == arena@.len(),
                    i < n,
                    arena_wf(arena@),
                    fv == flat_views(arena@),
                    arena_rec_wf(fv),
                    fv.len() == n,
                    g == self.gap as int,
                    nc == arena@[i as int].children@.len(),
                    nc == fv[i as int].children.len(),
                    node == arena@[i as int],
                    widths@.len() == i,
                    forall|j: int|
                        0 <= j < i ==> #[trigger] widths@[j] == spec_subtree_width(fv, g, j),
                    span == spec_node_children_span(fv, g, i as int, k as int),
                    span <= u32::MAX,
                decreases nc - k,
            {
                if k > 0 {
                    span = span + self.gap as u64;
                }
                let c = node.children[k];
                proof {
                    lemma_flat_views_index(arena@, i as int);
                    assert(fv[i as int].children[k as int] == arena@[i as int].children@[k as int] as int);
                    assert(arena@[i as int].children@[k as int] < i);
                }
                span = span + widths[c] as u64;
                if span > u32::MAX as u64 {
                    proof {
                        lemma_node_children_span_nonneg(fv, g, i as int, nc as int);
                        assert(spec_node_children_span(fv, g, i as int, k + 1) <= spec_node_children_span(
                            fv,
                            g,
                            i as int,
                            nc as int,
                        ));
                        assert(spec_subtree_width(fv, g, i as int) > u32::MAX);
                    }
                    return Err(RenderError::NumericRange);
                }
                k += 1;
            }
            let dims = match crate::util::content_dimension(node.content.as_str()) {
                Ok(d) => d,
                Err(_) => {
                    proof {
                        crate::util::lemma_max_line_width_nonneg(crate::util::spec_lines(
                            fv[i as int].content,
                        ));
                        if spec_content_width(fv[i as int].content) > u32::MAX {
                            assert(spec_subtree_width(fv, g, i as int) > u32::MAX);
                        }
                    }
                    return Err(RenderError::NumericRange);
                },
            };
            let w: u32 = if dims.0 as u64 > span {
                dims.0
            } else {
                span as u32
            };
            proof {
                assert(w == spec_subtree_width(fv, g, i as int));
            }
            widths.push(w);
            i += 1;
        }
        proof {
            assert forall|j: int|
                0 <= j < fv.len() implies spec_subtree_width(fv, self.gap as int, j) <= u32::MAX
                && spec_content_height(#[trigger] fv[j].content) <= u32::MAX by {
                assert(widths@[j] == spec_subtree_width(fv, self.gap as int, j));
            }
        }
        let root_width = widths[n - 1];
        Ok((widths, root_width))
    }
}

/// The aligner produced by an untouched builder: everything centered,
/// connectors on the content block, no offsets, gap 1.
pub open spec fn spec_default_aligner() -> DefaultAligner {
    DefaultAligner {
        content_align: HorizontalAlign::Center,
        content_offset: 0,
        top_connection: ConnectionDescriptor {
            align: HorizontalAlign::Center,
            connect: ConnectMode::Content,
            offset: 0,
        },
        bottom_connection: ConnectionDescriptor {
            align: HorizontalAlign::Center,
            connect: ConnectMode::Content,
            offset: 0,
        },
        children_align: HorizontalAlign::Center,
        gap: 1,
    }
}

/// The default aligner with every alignment policy replaced and the given gap.
pub open spec fn spec_aligner_from(align: HorizontalAlign, gap: u32) -> DefaultAligner {
    DefaultAligner {
        content_align: align,
        content_offset: 0,
        top_connection: ConnectionDescriptor {
            align,
            connect: ConnectMode::Content,
            offset: 0,
        },
        bottom_connection: ConnectionDescriptor {
            align,
            connect: ConnectMode::Content,
            offset: 0,
        },
        children_align: align,
        gap,
    }
}

impl Default for DefaultAligner {
    /// Everything centered with gap 1.
    fn default() -> (r: DefaultAligner)
        ensures
            r == spec_aligner_from(HorizontalAlign::Center, 1),
    {
        DefaultAligner::from_align(HorizontalAlign::Center)
    }
}

/// Step-by-step constructor for [`DefaultAligner`].
pub struct DefaultAlignerBuilder {
    content_align: HorizontalAlign,
    content_offset: u32,
    top_connection: ConnectionDescriptor,
    bottom_connection: ConnectionDescriptor,
    children_align: HorizontalAlign,
    gap: u32,
}

impl DefaultAlignerBuilder {
    /// The aligner this builder would currently produce.
    pub closed spec fn view(&self) -> DefaultAligner {
        DefaultAligner {
            content_align: self.content_align,
            content_offset: self.content_offset,
            top_connection: self.top_connection,
            bottom_connection: self.bottom_connection,
            children_align: self.children_align,
            gap: self.gap,
        }
    }

    /// Sets every alignment policy at once: content, both connectors and the
    /// children placement.
    pub fn align(&mut self, align: HorizontalAlign)
        ensures
            final(self)@ == (DefaultAligner {
                content_align: align,
                top_connection: ConnectionDescriptor { align, ..old(self)@.top_connection },
                bottom_connection: ConnectionDescriptor { align, ..old(self)@.bottom_connection },
                children_align: align,
                ..old(self)@
            }),
    {
        self.content_align = align;
        self.top_connection.align = align;
        self.bottom_connection.align = align;
        self.children_align = align;
    }

    pub fn content_align(&mut self, align: HorizontalAlign)
        ensures
            final(self)@ == (DefaultAligner { content_align: align, ..old(self)@ }),
    {
        self.content_align = align;
    }

    pub fn content_offset(&mut self, offset: u32)
        ensures
            final(self)@ == (DefaultAligner { content_offset: offset, ..old(self)@ }),
    {
        self.content_offset = offset;
    }

    pub fn top_connection_align(&mut self, align: HorizontalAlign)
        ensures
            final(self)@ == (DefaultAligner {
                top_connection: ConnectionDescriptor { align, ..old(self)@.top_connection },
                ..old(self)@
            }),
    {
        self.top_connection.align = align;
    }

    pub fn top_connection_connect(&mut self, connect: ConnectMode)
        ensures
            final(self)@ == (DefaultAligner {
                top_connection: ConnectionDescriptor { connect, ..old(self)@.top_connection },
                ..old(self)@
            }),
    {
        self.top_connection.connect = connect;
    }

    pub fn top_connection_offset(&mut self, offset: u32)
        ensures
            final(self)@ == (DefaultAligner {
                top_connection: ConnectionDescriptor { offset, ..old(self)@.top_connection },
                ..old(self)@
            }),
    {
        self.top_connection.offset = offset;
    }

    pub fn bottom_connection_align(&mut self, align: HorizontalAlign)
        ensures
            final(self)@ == (DefaultAligner {
                bottom_connection: ConnectionDescriptor { align, ..old(self)@.bottom_connection },
                ..old(self)@
            }),
    {
        self.bottom_connection.align = align;
    }

    pub fn bottom_connection_connect(&mut self, connect: ConnectMode)
        ensures
            final(self)@ == (DefaultAligner {
                bottom_connection: ConnectionDescriptor { connect, ..old(self)@.bottom_connection },
                ..old(self)@
            }),
    {
        self.bottom_connection.connect = connect;
    }

    pub fn bottom_connection_offset(&mut self, offset: u32)
        ensures
            final(self)@ == (DefaultAligner {
                bottom_connection: ConnectionDescriptor { offset, ..old(self)@.bottom_connection },
                ..old(self)@
            }),
    {
        self.bottom_connection.offset = offset;
    }

    pub fn children_align(&mut self, align: HorizontalAlign)
        ensures
            final(self)@ == (DefaultAligner { children_align: align, ..old(self)@ }),
    {
        self.children_align = align;
    }

    pub fn gap(&mut self, gap: u32)
        ensures
            final(self)@ == (DefaultAligner { gap, ..old(self)@ }),
    {
        self.gap = gap;
    }

    pub fn build(&self) -> (r: DefaultAligner)
        ensures
            r == self@,
    {
        DefaultAligner {
            content_align: self.content_align,
            content_offset: self.content_offset,
            top_connection: self.top_connection,
            bottom_connection: self.bottom_connection,
            children_align: self.children_align,
            gap: self.gap,
        }
    }
}

} // verus!
