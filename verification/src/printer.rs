//! The breadth-first tree printer: places the root, then sweeps layer by
//! layer, drawing each node's connector and its children's content blocks,
//! and flushes every row as soon as no node can still write to it.

use vstd::prelude::*;
use crate::aligner::{
    Aligner, DefaultAligner, Placement, spec_align_children_fits, spec_align_node, spec_child_offset,
    spec_children_shift, spec_children_span, spec_subtree_width, spec_widths_fit, widths_of,
    lemma_subtree_width_nonneg, lemma_child_offset_nonneg, lemma_span_partial,
};
use crate::errors::RenderError;
use crate::liner::{DefaultLiner, Liner, liner_wf, spec_print_connections};
use crate::text::{BufModel, LineBuffer, LinePosition, spec_flush, spec_flush_all, spec_write_lines};
use crate::tree_node::{
    FlatNode, FlatRec, TreeNode, arena_rec_wf, arena_wf, flat_views, flatten, spec_flat, spec_size,
    lemma_arena_wf_views, lemma_flat_views_index, lemma_flat_wf, lemma_flat_len, lemma_size_pos,
};
use crate::util::{spec_content_height, spec_content_width, spec_lines, line_views};

verus! {

/// Where one node of the current layer sits: its top text row, the left end
/// of its reserved span, the column its downward connector leaves from, the
/// left edge of its content block, and its content height.
#[derive(Debug, Clone, Copy, PartialEq, Eq, Structural)]
pub struct Position {
    pub row: u32,
    pub col: u32,
    pub connection: u32,
    pub left: u32,
    pub height: u32,
}

/// The breadth-first printer: an aligner for the horizontal geometry, a liner
/// for the connector artwork, and the choice whether placeholder-only child
/// lists are rendered or suppressed.
pub struct TraditionalTreePrinter {
    pub aligner: DefaultAligner,
    pub liner: DefaultLiner,
    pub display_placeholders: bool,
}

/// A printer whose glyphs can never break a row.
pub open spec fn printer_wf(p: TraditionalTreePrinter) -> bool {
    liner_wf(p.liner)
}

/// Rows one connector consumes.
pub open spec fn spec_connection_rows(l: DefaultLiner) -> int {
    l.top_height + (if l.display_bracket {
        1int
    } else {
        0int
    }) + l.bottom_height
}

/// Every listed child is a placeholder.
pub open spec fn all_placeholders(arena: Seq<FlatRec>, children: Seq<int>) -> bool {
    forall|k: int| 0 <= k < children.len() ==> arena[#[trigger] children[k]].is_placeholder
}

/// The subtree widths of a node's children.
pub open spec fn child_widths(arena: Seq<FlatRec>, gap: int, children: Seq<int>) -> Seq<int> {
    Seq::new(children.len(), |k: int| spec_subtree_width(arena, gap, children[k]))
}

/// Every node of the arena needs at least one column: the layout has no place
/// for a node of width zero.
pub open spec fn widths_positive(arena: Seq<FlatRec>, gap: int) -> bool {
    forall|i: int| 0 <= i < arena.len() ==> spec_subtree_width(arena, gap, i) >= 1
}

/// What handling one layer node does: nothing for a leaf or a suppressed
/// placeholder-only child list; otherwise the children are placed, the
/// connector is drawn at the row under the node's content, every child's
/// content block is written, and the children become next-layer entries
/// together with their bottom edges.  A range failure is reported exactly
/// when a column or row would not fit the coordinate width.
pub open spec fn spec_handle_node(
    p: TraditionalTreePrinter,
    arena: Seq<FlatRec>,
    m: BufModel,
    node: int,
    pos: Position,
) -> Result<(BufModel, Seq<(int, Position)>, Seq<int>), RenderError> {
    let children = arena[node].children;
    if children.len() == 0 || (!p.display_placeholders && all_placeholders(arena, children)) {
        Ok((m, Seq::empty(), Seq::empty()))
    } else {
        let g = p.aligner.gap as int;
        let pw = spec_subtree_width(arena, g, node);
        let ws = child_widths(arena, g, children);
        if !spec_align_children_fits(pw, ws, g, pos.col as int) {
            Err(RenderError::NumericRange)
        } else if pos.row + pos.height + p.liner.top_height + 1 + p.liner.bottom_height
            > u32::MAX {
            Err(RenderError::NumericRange)
        } else {
            let conn_row = pos.row + pos.height;
            let crows = spec_connection_rows(p.liner);
            let child_row = conn_row + crows;
            if exists|k: int|
                0 <= k < children.len() && child_row + spec_content_height(
                    arena[#[trigger] children[k]].content,
                ) > u32::MAX {
                Err(RenderError::NumericRange)
            } else {
                let shift = spec_children_shift(
                    p.aligner.children_align,
                    pw,
                    spec_children_span(ws, g),
                );
                let cols = Seq::new(
                    children.len(),
                    |k: int| pos.col + spec_child_offset(ws, g, k) + shift,
                );
                let places = Seq::new(
                    children.len(),
                    |k: int|
                        spec_align_node(
                            p.aligner,
                            cols[k],
                            ws[k],
                            spec_content_width(arena[children[k]].content),
                        ),
                );
                let tops = Seq::new(children.len(), |k: int| places[k].top_connection);
                let m2 = spec_print_connections(m, p.liner, conn_row, pos.connection as int, tops);
                let entries = Seq::new(
                    children.len(),
                    |k: int|
                        (
                            children[k],
                            Position {
                                row: child_row as u32,
                                col: cols[k] as u32,
                                connection: places[k].bottom_connection,
                                left: places[k].left,
                                height: spec_content_height(arena[children[k]].content) as u32,
                            },
                        ),
                );
                let m3 = spec_write_entries(m2, arena, entries);
                let bottoms = Seq::new(
                    children.len(),
                    |k: int| child_row + spec_content_height(arena[children[k]].content),
                );
                Ok((m3, entries, bottoms))
            }
        }
    }
}

/// Writes each entry's content block at its recorded row and left edge, in
/// entry order.
pub open spec fn spec_write_entries(
    m: BufModel,
    arena: Seq<FlatRec>,
    entries: Seq<(int, Position)>,
) -> BufModel
    decreases entries.len(),
{
    if entries.len() == 0 {
        m
    } else {
        spec_write_entries(
            spec_write_lines(
                m,
                entries[0].1.row as int,
                entries[0].1.left as int,
                spec_lines(arena[entries[0].0].content),
            ),
            arena,
            entries.drop_first(),
        )
    }
}

/// Handles every node of a layer in order, concatenating the produced
/// next-layer entries and bottom edges.
pub open spec fn spec_handle_all(
    p: TraditionalTreePrinter,
    arena: Seq<FlatRec>,
    m: BufModel,
    layer: Seq<(int, Position)>,
) -> Result<(BufModel, Seq<(int, Position)>, Seq<int>), RenderError>
    decreases layer.len(),
{
    if layer.len() == 0 {
        Ok((m, Seq::empty(), Seq::empty()))
    } else {
        match spec_handle_node(p, arena, m, layer[0].0, layer[0].1) {
            Err(e) => Err(e),
            Ok(first) => match spec_handle_all(p, arena, first.0, layer.drop_first()) {
                Err(e) => Err(e),
                Ok(rest) => Ok((rest.0, first.1 + rest.1, first.2 + rest.2)),
            },
        }
    }
}

/// The smallest value of a nonempty list; -1 for an empty one.
pub open spec fn spec_min_seq(s: Seq<int>) -> int
    decreases s.len(),
{
    if s.len() == 0 {
        -1
    } else if s.len() == 1 {
        s[0]
    } else {
        let rest = spec_min_seq(s.drop_first());
        if s[0] <= rest {
            s[0]
        } else {
            rest
        }
    }
}

/// The largest node id of a layer; -1 for an empty one.
pub open spec fn spec_max_id(layer: Seq<(int, Position)>) -> int
    decreases layer.len(),
{
    if layer.len() == 0 {
        -1
    } else {
        let rest = spec_max_id(layer.drop_first());
        if layer[0].0 >= rest {
            layer[0].0
        } else {
            rest
        }
    }
}

/// Every entry of the layer names an arena slot.
pub open spec fn layer_ids_ok(arena: Seq<FlatRec>, layer: Seq<(int, Position)>) -> bool {
    forall|t: int| 0 <= t < layer.len() ==> 0 <= (#[trigger] layer[t]).0 < arena.len()
}

/// One layer step: handle every node, then flush everything above the lowest
/// child bottom edge — the flush horizon: no remaining node can still write
/// above it.  A layer that produced no children flushes nothing.
pub open spec fn spec_next_generation(
    p: TraditionalTreePrinter,
    arena: Seq<FlatRec>,
    m: BufModel,
    layer: Seq<(int, Position)>,
) -> Result<(BufModel, Seq<(int, Position)>), RenderError> {
    match spec_handle_all(p, arena, m, layer) {
        Err(e) => Err(e),
        Ok(done) => if done.1.len() > 0 {
            Ok((spec_flush(done.0, spec_min_seq(done.2)), done.1))
        } else {
            Ok((done.0, done.1))
        },
    }
}

/// The node ids an entry list may mention, and a bound on them.
pub proof fn lemma_handle_node_ids(
    p: TraditionalTreePrinter,
    arena: Seq<FlatRec>,
    m: BufModel,
    node: int,
    pos: Position,
)
    requires
        arena_rec_wf(arena),
        0 <= node < arena.len(),
    ensures
        match spec_handle_node(p, arena, m, node, pos) {
            Ok(done) => {
                &&& done.1.len() == done.2.len()
                &&& forall|t: int| 0 <= t < done.1.len() ==> 0 <= (#[trigger] done.1[t]).0 < node
            },
            Err(_) => true,
        },
{
}

/// Handling a layer only yields entries below the layer's largest id.
pub proof fn lemma_handle_all_ids(
    p: TraditionalTreePrinter,
    arena: Seq<FlatRec>,
    m: BufModel,
    layer: Seq<(int, Position)>,
)
    requires
        arena_rec_wf(arena),
        layer_ids_ok(arena, layer),
    ensures
        match spec_handle_all(p, arena, m, layer) {
            Ok(done) => {
                &&& done.1.len() == done.2.len()
                &&& forall|t: int|
                    0 <= t < done.1.len() ==> 0 <= (#[trigger] done.1[t]).0 < spec_max_id(layer)
            },
            Err(_) => true,
        },
    decreases layer.len(),
{
    if layer.len() > 0 {
        assert(layer[0] == layer[0]);
        lemma_handle_node_ids(p, arena, m, layer[0].0, layer[0].1);
        match spec_handle_node(p, arena, m, layer[0].0, layer[0].1) {
            Err(_) => {},
            Ok(first) => {
                assert(layer_ids_ok(arena, layer.drop_first())) by {
                    assert(forall|t: int|
                        0 <= t < layer.drop_first().len() ==> layer.drop_first()[t]
                            == layer[t + 1]);
                }
                lemma_handle_all_ids(p, arena, first.0, layer.drop_first());
                lemma_max_id_bounds(layer);
                lemma_max_id_bounds(layer.drop_first());
                match spec_handle_all(p, arena, first.0, layer.drop_first()) {
                    Err(_) => {},
                    Ok(rest) => {
                        assert(spec_max_id(layer.drop_first()) <= spec_max_id(layer));
                        assert(layer[0].0 <= spec_max_id(layer));
                        assert(forall|t: int|
                            0 <= t < first.1.len() ==> (first.1 + rest.1)[t] == first.1[t]);
                        assert(forall|t: int|
                            first.1.len() <= t < first.1.len() + rest.1.len() ==> (first.1
                                + rest.1)[t] == rest.1[t - first.1.len()]);
                    },
                }
            },
        }
    }
}

/// The largest id bounds every id of the layer.
pub proof fn lemma_max_id_bounds(layer: Seq<(int, Position)>)
    ensures
        forall|t: int| 0 <= t < layer.len() ==> (#[trigger] layer[t]).0 <= spec_max_id(layer),
    decreases layer.len(),
{
    if layer.len() > 0 {
        lemma_max_id_bounds(layer.drop_first());
        assert(forall|t: int|
            1 <= t < layer.len() ==> layer[t] == layer.drop_first()[t - 1]);
    }
}

/// One layer step keeps ids in range and strictly lowers the largest id.
pub proof fn lemma_next_generation_ids(
    p: TraditionalTreePrinter,
    arena: Seq<FlatRec>,
    m: BufModel,
    layer: Seq<(int, Position)>,
)
    requires
        arena_rec_wf(arena),
        layer_ids_ok(arena, layer),
        layer.len() > 0,
    ensures
        match spec_next_generation(p, arena, m, layer) {
            Ok(done) => {
                &&& layer_ids_ok(arena, done.1)
                &&& spec_max_id(done.1) < spec_max_id(layer)
                &&& spec_max_id(layer) >= 0
            },
            Err(_) => true,
        },
{
    lemma_handle_all_ids(p, arena, m, layer);
    lemma_max_id_bounds(layer);
    assert(layer[0].0 <= spec_max_id(layer));
    assert((layer[0]).0 >= 0 && (layer[0]).0 < arena.len());
    lemma_max_id_below_len(layer, arena.len() as int);
    match spec_handle_all(p, arena, m, layer) {
        Err(_) => {},
        Ok(done) => {
            lemma_max_id_below(done.1, spec_max_id(layer));
            assert forall|t: int| 0 <= t < done.1.len() implies 0 <= (#[trigger] done.1[t]).0
                < arena.len() by {
                assert(done.1[t].0 < spec_max_id(layer));
            }
        },
    }
}

/// A layer within the arena has its largest id within the arena.
pub proof fn lemma_max_id_below_len(layer: Seq<(int, Position)>, len: int)
    requires
        forall|t: int| 0 <= t < layer.len() ==> 0 <= (#[trigger] layer[t]).0 < len,
        layer.len() > 0,
    ensures
        spec_max_id(layer) < len,
        spec_max_id(layer) >= 0,
    decreases layer.len(),
{
    assert((layer[0]).0 < len && (layer[0]).0 >= 0);
    if layer.len() > 1 {
        assert(forall|t: int|
            0 <= t < layer.drop_first().len() ==> layer.drop_first()[t] == layer[t + 1]);
        lemma_max_id_below_len(layer.drop_first(), len);
    } else {
        assert(layer.drop_first().len() == 0);
        assert(spec_max_id(layer.drop_first()) == -1);
    }
}

/// If every id of a layer is below a bound, so is the largest.
pub proof fn lemma_max_id_below(layer: Seq<(int, Position)>, bound: int)
    requires
        forall|t: int| 0 <= t < layer.len() ==> (#[trigger] layer[t]).0 < bound,
        bound >= 0,
    ensures
        spec_max_id(layer) < bound,
    decreases layer.len(),
{
    if layer.len() > 0 {
        assert(forall|t: int|
            0 <= t < layer.drop_first().len() ==> layer.drop_first()[t] == layer[t + 1]);
        lemma_max_id_below(layer.drop_first(), bound);
    }
}

/// The whole layer loop: layer steps until a layer yields no children.
pub open spec fn spec_generations(
    p: TraditionalTreePrinter,
    arena: Seq<FlatRec>,
    m: BufModel,
    layer: Seq<(int, Position)>,
) -> Result<BufModel, RenderError>
    decreases spec_max_id(layer) + 1,
        when arena_rec_wf(arena) && layer_ids_ok(arena, layer)
{
    if layer.len() == 0 {
        Ok(m)
    } else {
        match spec_next_generation(p, arena, m, layer) {
            Err(e) => Err(e),
            Ok(done) => {
                proof {
                    lemma_next_generation_ids(p, arena, m, layer);
                }
                spec_generations(p, arena, done.0, done.1)
            },
        }
    }
}

/// The whole render of a tree: the width pass over its arena, the root placed
/// at column 0 and written, everything flushed (the root waits for nobody),
/// the layer loop, and a final flush of the remainder.  The value is the full
/// list of emitted rows; a range failure is reported exactly when a dimension
/// or coordinate would not fit the coordinate width.
pub open spec fn spec_print(p: TraditionalTreePrinter, root: crate::tree_node::NodeModel) -> Result<
    Seq<Seq<char>>,
    RenderError,
> {
    let arena = spec_flat(root, 0);
    let g = p.aligner.gap as int;
    if !spec_widths_fit(arena, g) {
        Err(RenderError::NumericRange)
    } else {
        let root_id = arena.len() - 1;
        let rootw = spec_subtree_width(arena, g, root_id);
        let rcw = spec_content_width(root.content);
        let rch = spec_content_height(root.content);
        let pl = spec_align_node(p.aligner, 0, rootw, rcw);
        let m0 = BufModel { emitted: Seq::empty(), pending: Seq::empty() };
        let m1 = spec_write_lines(m0, 0, pl.left as int, spec_lines(root.content));
        let m2 = spec_flush_all(m1);
        let layer0 = seq![
            (
                root_id,
                Position {
                    row: 0,
                    col: 0,
                    connection: pl.bottom_connection,
                    left: pl.left,
                    height: rch as u32,
                },
            ),
        ];
        match spec_generations(p, arena, m2, layer0) {
            Err(e) => Err(e),
            Ok(mf) => Ok(spec_flush_all(mf).emitted),
        }
    }
}


/// The spec-level shape of an entry list.
pub open spec fn entry_views(s: Seq<(usize, Position)>) -> Seq<(int, Position)> {
    s.map_values(|e: (usize, Position)| (e.0 as int, e.1))
}

/// The spec-level shape of a bottom-edge list.
pub open spec fn bottom_views(s: Seq<u32>) -> Seq<int> {
    s.map_values(|b: u32| b as int)
}

/// Whether every listed child only reserves space.
fn children_all_placeholders(arena: &Vec<FlatNode>, children: &Vec<usize>) -> (r: bool)
    requires
        forall|k: int| 0 <= k < children@.len() ==> #[trigger] children@[k] < arena@.len(),
    ensures
        r == all_placeholders(
            flat_views(arena@),
            children@.map_values(|c: usize| c as int),
        ),
{
    let ghost fv = flat_views(arena@);
    let ghost ids = children@.map_values(|c: usize| c as int);
    let mut k: usize = 0;
    while k < children.len()
        invariant
            k <= children@.len(),
            fv == flat_views(arena@),
            ids == children@.map_values(|c: usize| c as int),
            forall|j: int| 0 <= j < children@.len() ==> #[trigger] children@[j] < arena@.len(),
            forall|j: int| 0 <= j < k ==> fv[#[trigger] ids[j]].is_placeholder,
        decreases children@.len() - k,
    {
        let c = children[k];
        proof {
            lemma_flat_views_index(arena@, c as int);
        }
        if !arena[c].is_placeholder {
            proof {
                assert(ids[k as int] == c as int);
                assert(!fv[ids[k as int]].is_placeholder);
            }
            return false;
        }
        k += 1;
    }
    true
}

impl TraditionalTreePrinter {
    /// A printer from its three parts.
    pub fn new(aligner: DefaultAligner, liner: DefaultLiner, display_placeholders: bool) -> (r:
        TraditionalTreePrinter)
        ensures
            r.aligner == aligner && r.liner == liner && r.display_placeholders
                == display_placeholders,
    {
        TraditionalTreePrinter { aligner, liner, display_placeholders }
    }

    /// A printer that suppresses placeholder-only child lists.
    pub fn from_aligner_and_liner(aligner: DefaultAligner, liner: DefaultLiner) -> (r:
        TraditionalTreePrinter)
        ensures
            r.aligner == aligner && r.liner == liner && !r.display_placeholders,
    {
        TraditionalTreePrinter::new(aligner, liner, false)
    }

    /// Handles one node of the current layer: places its children, draws the
    /// connector, writes each child's content block, and returns the next
    /// layer's entries for them together with their bottom edges.  A leaf, or
    /// a suppressed placeholder-only child list, contributes nothing.
    fn handle_node_children(
        &self,
        buffer: &mut LineBuffer,
        arena: &Vec<FlatNode>,
        width_map: &Vec<u32>,
        node: usize,
        pos: Position,
    ) -> (r: Result<(Vec<(usize, Position)>, Vec<u32>), RenderError>)
        requires
            printer_wf(*self),
            arena_wf(arena@),
            node < arena@.len(),
            width_map@.len() == arena@.len(),
            forall|i: int|
                0 <= i < arena@.len() ==> #[trigger] width_map@[i] == spec_subtree_width(
                    flat_views(arena@),
                    self.aligner.gap as int,
                    i,
                ),
            spec_widths_fit(flat_views(arena@), self.aligner.gap as int),
            widths_positive(flat_views(arena@), self.aligner.gap as int),
        ensures
            match (r, spec_handle_node(
                *self,
                flat_views(arena@),
                old(buffer)@,
                node as int,
                pos,
            )) {
                (Ok(v), Ok(d)) => {
                    &&& final(buffer)@ == d.0
                    &&& entry_views(v.0@) == d.1
                    &&& bottom_views(v.1@) == d.2
                },
                (Err(e), Err(e2)) => e == e2 && final(buffer)@ == old(buffer)@,
                _ => false,
            },
    {
        let ghost fv = flat_views(arena@);
        let ghost g = self.aligner.gap as int;
        proof {
            lemma_arena_wf_views(arena@);
            lemma_flat_views_index(arena@, node as int);
        }
        let children = &arena[node].children;
        let ghost ids = fv[node as int].children;
        proof {
            assert(ids =~= children@.map_values(|c: usize| c as int));
            assert(forall|k: int|
                0 <= k < children@.len() ==> #[trigger] children@[k] < node);
        }
        if children.len() == 0 {
            proof {
                assert(entry_views(Seq::<(usize, Position)>::empty()) =~= Seq::<(
                    int,
                    Position,
                )>::empty());
                assert(bottom_views(Seq::<u32>::empty()) =~= Seq::<int>::empty());
            }
            return Ok((Vec::new(), Vec::new()));
        }
        if !self.display_placeholders && children_all_placeholders(arena, children) {
            proof {
                assert(entry_views(Seq::<(usize, Position)>::empty()) =~= Seq::<(
                    int,
                    Position,
                )>::empty());
                assert(bottom_views(Seq::<u32>::empty()) =~= Seq::<int>::empty());
            }
            return Ok((Vec::new(), Vec::new()));
        }
        let ghost ws = child_widths(fv, g, ids);
        proof {
            assert(ws =~= widths_of(children@, width_map@));
            assert forall|k: int| 0 <= k < ws.len() implies #[trigger] ws[k] >= 1 by {
                assert(0 <= ids[k] < fv.len());
            }
        }
        let cols = match self.aligner.align_children(node, children, pos.col, width_map) {
            Ok(v) => v,
            Err(e) => {
                proof {
                    assert(e == RenderError::NumericRange);
                }
                return Err(RenderError::NumericRange);
            },
        };
        let ghost pw = spec_subtree_width(fv, g, node as int);
        let ghost span = spec_children_span(ws, g);
        let ghost shift = spec_children_shift(self.aligner.children_align, pw, span);
        if pos.row as u64 + pos.height as u64 + self.liner.top_height as u64 + 1
            + self.liner.bottom_height as u64 > u32::MAX as u64 {
            return Err(RenderError::NumericRange);
        }
        let conn_row: u32 = pos.row + pos.height;
        let bracket_rows: u32 = if self.liner.display_bracket {
            1
        } else {
            0
        };
        let child_row: u32 = conn_row + self.liner.top_height + bracket_rows
            + self.liner.bottom_height;
        let mut heights: Vec<u32> = Vec::new();
        let mut k: usize = 0;
        while k < children.len()
            invariant
                k <= children@.len(),
                fv == flat_views(arena@),
                arena_rec_wf(fv),
                g == self.aligner.gap as int,
                ids == fv[node as int].children,
                ids.len() == children@.len(),
                node < arena@.len(),
                forall|j: int| 0 <= j < children@.len() ==> #[trigger] children@[j] < node,
                forall|j: int| 0 <= j < children@.len() ==> #[trigger] ids[j] == children@[j] as int,
                spec_widths_fit(fv, g),
                child_row as int == pos.row + pos.height + spec_connection_rows(self.liner),
                heights@.len() == k,
                forall|j: int|
                    0 <= j < k ==> #[trigger] heights@[j] == spec_content_height(
                        fv[ids[j]].content,
                    ),
                forall|j: int|
                    0 <= j < k ==> child_row + #[trigger] heights@[j] <= u32::MAX,
            decreases children@.len() - k,
        {
            let c = children[k];
            proof {
                lemma_flat_views_index(arena@, c as int);
                lemma_subtree_width_nonneg(fv, g, c as int);
            }
            let dims = match crate::util::content_dimension(arena[c].content.as_str()) {
                Ok(d) => d,
                Err(_) => {
                    proof {
                        assert(spec_subtree_width(fv, g, c as int) <= u32::MAX);
                        assert(spec_content_height(fv[c as int].content) <= u32::MAX);
                        assert(false);
                    }
                    return Err(RenderError::NumericRange);
                },
            };
            if child_row as u64 + dims.1 as u64 > u32::MAX as u64 {
                proof {
                    assert(ids[k as int] == c as int);
                    assert(child_row + spec_content_height(fv[ids[k as int]].content) > u32::MAX);
                }
                return Err(RenderError::NumericRange);
            }
            heights.push(dims.1);
            k += 1;
        }
        let ghost m_start = buffer@;
        let ghost d = spec_handle_node(*self, fv, m_start, node as int, pos);
        proof {
            assert(!(exists|k2: int|
                0 <= k2 < ids.len() && child_row as int + spec_content_height(
                    fv[#[trigger] ids[k2]].content,
                ) > u32::MAX)) by {
                assert(forall|k2: int|
                    0 <= k2 < ids.len() ==> child_row as int + spec_content_height(
                        fv[#[trigger] ids[k2]].content,
                    ) == child_row + heights@[k2]);
            }
        }
        let mut placements: Vec<Placement> = Vec::new();
        let mut tops: Vec<u32> = Vec::new();
        let ghost spec_cols = Seq::new(ids.len(), |k2: int| pos.col + spec_child_offset(ws, g, k2) + shift);
        let ghost spec_places = Seq::new(
            ids.len(),
            |k2: int|
                spec_align_node(self.aligner, spec_cols[k2], ws[k2], spec_content_width(fv[ids[k2]].content)),
        );
        let mut k: usize = 0;
        while k < children.len()
            invariant
                k <= children@.len(),
                fv == flat_views(arena@),
                arena_rec_wf(fv),
                g == self.aligner.gap as int,
                ids == fv[node as int].children,
                ids.len() == children@.len(),
                node < arena@.len(),
                width_map@.len() == arena@.len(),
                forall|i: int|
                    0 <= i < arena@.len() ==> #[trigger] width_map@[i] == spec_subtree_width(fv, g, i),
                forall|j: int| 0 <= j < children@.len() ==> #[trigger] children@[j] < node,
                forall|j: int| 0 <= j < children@.len() ==> #[trigger] ids[j] == children@[j] as int,
                spec_widths_fit(fv, g),
                widths_positive(fv, g),
                ws == child_widths(fv, g, ids),
                forall|j: int| 0 <= j < ws.len() ==> #[trigger] ws[j] >= 1,
                pw == spec_subtree_width(fv, g, node as int),
                span == spec_children_span(ws, g),
                shift == spec_children_shift(self.aligner.children_align, pw, span),
                spec_align_children_fits(pw, ws, g, pos.col as int),
                cols@.len() == children@.len(),
                forall|j: int|
                    0 <= j < children@.len() ==> #[trigger] cols@[j] == pos.col
                        + spec_child_offset(ws, g, j) + shift,
                spec_cols == Seq::new(ids.len(), |k2: int| pos.col + spec_child_offset(ws, g, k2) + shift),
                spec_places == Seq::new(
                    ids.len(),
                    |k2: int|
                        spec_align_node(
                            self.aligner,
                            spec_cols[k2],
                            ws[k2],
                            spec_content_width(fv[ids[k2]].content),
                        ),
                ),
                placements@.len() == k,
                tops@.len() == k,
                forall|j: int| 0 <= j < k ==> #[trigger] placements@[j] == spec_places[j],
                forall|j: int| 0 <= j < k ==> #[trigger] tops@[j] == spec_places[j].top_connection,
            decreases children@.len() - k,
        {
            let c = children[k];
            proof {
                lemma_flat_views_index(arena@, c as int);
                lemma_subtree_width_nonneg(fv, g, c as int);
                lemma_child_offset_nonneg(ws, g, k as int);
                lemma_span_partial(ws, g, k as int + 1);
                assert(ws[k as int] == width_map@[c as int]);
                assert(spec_child_offset(ws, g, k as int) + ws[k as int] <= span);
                assert(shift >= 0);
                if shift > 0 {
                    assert(span + shift <= pw);
                }
                assert(cols@[k as int] + ws[k as int] <= pos.col + (if span > pw {
                    span
                } else {
                    pw
                }));
            }
            let dims = match crate::util::content_dimension(arena[c].content.as_str()) {
                Ok(d) => d,
                Err(_) => {
                    proof {
                        assert(spec_subtree_width(fv, g, c as int) <= u32::MAX);
                        assert(spec_content_height(fv[c as int].content) <= u32::MAX);
                        assert(false);
                    }
                    return Err(RenderError::NumericRange);
                },
            };
            let pl = self.aligner.align_node(cols[k], width_map[c], dims.0);
            proof {
                assert(pl == spec_places[k as int]);
            }
            placements.push(pl);
            tops.push(pl.top_connection);
            k += 1;
        }
        let ghost spec_tops = Seq::new(ids.len(), |k2: int| spec_places[k2].top_connection);
        proof {
            assert(tops@ =~= spec_tops);
        }
        let crows = match self.liner.print_connections(buffer, conn_row, pos.connection, &tops) {
            Ok(h) => h,
            Err(_) => {
                proof {
                    assert(tops@.len() > 0);
                    assert(false);
                }
                return Err(RenderError::NumericRange);
            },
        };
        proof {
            assert(crows as int == spec_connection_rows(self.liner));
        }
        let ghost spec_entries = Seq::new(
            ids.len(),
            |k2: int|
                (
                    ids[k2],
                    Position {
                        row: (pos.row + pos.height + spec_connection_rows(self.liner)) as u32,
                        col: spec_cols[k2] as u32,
                        connection: spec_places[k2].bottom_connection,
                        left: spec_places[k2].left,
                        height: spec_content_height(fv[ids[k2]].content) as u32,
                    },
                ),
        );
        let ghost m2 = buffer@;
        let mut new_entries: Vec<(usize, Position)> = Vec::new();
        let mut bottoms: Vec<u32> = Vec::new();
        let mut k: usize = 0;
        proof {
            assert(spec_entries.skip(0) =~= spec_entries);
        }
        while k < children.len()
            invariant
                k <= children@.len(),
                fv == flat_views(arena@),
                arena_rec_wf(fv),
                g == self.aligner.gap as int,
                ids == fv[node as int].children,
                ids.len() == children@.len(),
                node < arena@.len(),
                forall|j: int| 0 <= j < children@.len() ==> #[trigger] children@[j] < node,
                forall|j: int| 0 <= j < children@.len() ==> #[trigger] ids[j] == children@[j] as int,
                child_row as int == pos.row + pos.height + spec_connection_rows(self.liner),
                crows as int == spec_connection_rows(self.liner),
                conn_row as int == pos.row + pos.height,
                heights@.len() == children@.len(),
                forall|j: int|
                    0 <= j < children@.len() ==> #[trigger] heights@[j] == spec_content_height(
                        fv[ids[j]].content,
                    ),
                forall|j: int|
                    0 <= j < children@.len() ==> child_row + #[trigger] heights@[j] <= u32::MAX,
                cols@.len() == children@.len(),
                placements@.len() == children@.len(),
                forall|j: int| 0 <= j < children@.len() ==> #[trigger] placements@[j] == spec_places[j],
                forall|j: int|
                    0 <= j < children@.len() ==> #[trigger] cols@[j] == spec_cols[j],
                spec_entries == Seq::new(
                    ids.len(),
                    |k2: int|
                        (
                            ids[k2],
                            Position {
                                row: (pos.row + pos.height + spec_connection_rows(
                                    self.liner,
                                )) as u32,
                                col: spec_cols[k2] as u32,
                                connection: spec_places[k2].bottom_connection,
                                left: spec_places[k2].left,
                                height: spec_content_height(fv[ids[k2]].content) as u32,
                            },
                        ),
                ),
                new_entries@.len() == k,
                bottoms@.len() == k,
                forall|j: int|
                    0 <= j < k ==> (#[trigger] new_entries@[j]).0 as int == spec_entries[j].0
                        && new_entries@[j].1 == spec_entries[j].1,
                forall|j: int|
                    0 <= j < k ==> #[trigger] bottoms@[j] == child_row + heights@[j],
                spec_write_entries(m2, fv, spec_entries) == spec_write_entries(
                    buffer@,
                    fv,
                    spec_entries.skip(k as int),
                ),
            decreases children@.len() - k,
        {
            let c = children[k];
            let row: u32 = conn_row + crows;
            let pl = placements[k];
            let entry_pos = Position {
                row,
                col: cols[k],
                connection: pl.bottom_connection,
                left: pl.left,
                height: heights[k],
            };
            proof {
                lemma_flat_views_index(arena@, c as int);
                assert(entry_pos == spec_entries[k as int].1);
                assert(spec_entries.skip(k as int)[0] == spec_entries[k as int]);
                assert(spec_entries.skip(k as int).drop_first() =~= spec_entries.skip(k + 1));
            }
            buffer.write(
                LinePosition::new(row, pl.left),
                arena[c].content.as_str(),
            );
            new_entries.push((c, entry_pos));
            bottoms.push(row + heights[k]);
            k += 1;
        }
        proof {
            assert(spec_entries.skip(children@.len() as int) =~= Seq::<(int, Position)>::empty());
            assert(entry_views(new_entries@) =~= spec_entries);
            let ghost spec_bottoms = Seq::new(
                ids.len(),
                |k2: int| child_row + spec_content_height(fv[ids[k2]].content),
            );
            assert(bottom_views(bottoms@) =~= spec_bottoms);
        }
        Ok((new_entries, bottoms))
    }
}


/// Splitting off the first value of a nonempty list leaves the smaller of it
/// and the rest's minimum.
pub proof fn lemma_min_seq_bounds(s: Seq<int>)
    requires
        s.len() > 0,
    ensures
        forall|j: int| 0 <= j < s.len() ==> spec_min_seq(s) <= #[trigger] s[j],
        exists|j: int| 0 <= j < s.len() && spec_min_seq(s) == #[trigger] s[j],
    decreases s.len(),
{
    if s.len() == 1 {
        assert(spec_min_seq(s) == s[0]);
    } else {
        lemma_min_seq_bounds(s.drop_first());
        assert forall|j: int| 0 <= j < s.len() implies spec_min_seq(s) <= #[trigger] s[j] by {
            if j >= 1 {
                assert(s.drop_first()[j - 1] == s[j]);
                assert(spec_min_seq(s.drop_first()) <= s.drop_first()[j - 1]);
            }
        }
        if spec_min_seq(s) == s[0] {
            assert(spec_min_seq(s) == s[0]);
        } else {
            let j = choose|j: int|
                0 <= j < s.drop_first().len() && spec_min_seq(s.drop_first())
                    == #[trigger] s.drop_first()[j];
            assert(s.drop_first()[j] == s[j + 1]);
            assert(spec_min_seq(s) == s[j + 1]);
        }
    }
}

/// The smallest bottom edge of a nonempty list.
fn min_bottom(bottoms: &Vec<u32>) -> (r: u32)
    requires
        bottoms@.len() > 0,
    ensures
        r as int == spec_min_seq(bottom_views(bottoms@)),
{
    let ghost bv = bottom_views(bottoms@);
    let mut best = bottoms[0];
    let mut j: usize = 1;
    proof {
        lemma_min_seq_bounds(bv.take(1));
        assert(bv.take(1)[0] == bv[0]);
        assert(spec_min_seq(bv.take(1)) == bv[0]);
    }
    while j < bottoms.len()
        invariant
            1 <= j <= bottoms@.len(),
            bv == bottom_views(bottoms@),
            bv.len() == bottoms@.len(),
            best as int == spec_min_seq(bv.take(j as int)),
        decreases bottoms@.len() - j,
    {
        proof {
            lemma_min_take_snoc(bv, j as int);
        }
        if bottoms[j] < best {
            best = bottoms[j];
        }
        j += 1;
    }
    proof {
        assert(bv.take(bv.len() as int) =~= bv);
    }
    best
}

/// Taking one more value updates the minimum pointwise.
pub proof fn lemma_min_take_snoc(s: Seq<int>, j: int)
    requires
        1 <= j < s.len(),
    ensures
        spec_min_seq(s.take(j + 1)) == (if s[j] <= spec_min_seq(s.take(j)) {
            s[j]
        } else {
            spec_min_seq(s.take(j))
        }),
    decreases j,
{
    if j == 1 {
        assert(s.take(2).drop_first() =~= seq![s[1]]);
        assert(s.take(1).drop_first() =~= Seq::<int>::empty());
        assert(s.take(2)[0] == s[0]);
        assert(s.take(1)[0] == s[0]);
        assert(spec_min_seq(seq![s[1]]) == s[1]);
    } else {
        lemma_min_take_snoc(s.drop_first(), j - 1);
        assert(s.take(j + 1).drop_first() =~= s.drop_first().take(j));
        assert(s.take(j).drop_first() =~= s.drop_first().take(j - 1));
        assert(s.take(j + 1)[0] == s[0]);
        assert(s.take(j)[0] == s[0]);
        assert(s.drop_first()[j - 1] == s[j]);
    }
}

impl TraditionalTreePrinter {
    /// One layer sweep: handles every node of the layer, then flushes the
    /// buffer up to the smallest bottom edge of the new children — the flush
    /// horizon: a row is emitted once no remaining node can still write to
    /// it, and no later.  A layer without children flushes nothing.
    #[verifier::rlimit(100)]
    pub fn print_next_generation(
        &self,
        buffer: &mut LineBuffer,
        arena: &Vec<FlatNode>,
        width_map: &Vec<u32>,
        positions: &Vec<(usize, Position)>,
    ) -> (r: Result<Vec<(usize, Position)>, RenderError>)
        requires
            printer_wf(*self),
            arena_wf(arena@),
            width_map@.len() == arena@.len(),
            forall|i: int|
                0 <= i < arena@.len() ==> #[trigger] width_map@[i] == spec_subtree_width(
                    flat_views(arena@),
                    self.aligner.gap as int,
                    i,
                ),
            spec_widths_fit(flat_views(arena@), self.aligner.gap as int),
            widths_positive(flat_views(arena@), self.aligner.gap as int),
            forall|t: int|
                0 <= t < positions@.len() ==> (#[trigger] positions@[t]).0 < arena@.len(),
        ensures
            match (r, spec_next_generation(
                *self,
                flat_views(arena@),
                old(buffer)@,
                entry_views(positions@),
            )) {
                (Ok(v), Ok(d)) => final(buffer)@ == d.0 && entry_views(v@) == d.1,
                (Err(e), Err(e2)) => e == e2,
                _ => false,
            },
    {
        let ghost fv = flat_views(arena@);
        let ghost layer = entry_views(positions@);
        let ghost m0 = buffer@;
        let mut new_positions: Vec<(usize, Position)> = Vec::new();
        let mut child_bottoms: Vec<u32> = Vec::new();
        let mut t: usize = 0;
        proof {
            assert(layer.skip(0) =~= layer);
            assert(entry_views(new_positions@) =~= Seq::<(int, Position)>::empty());
            assert(bottom_views(child_bottoms@) =~= Seq::<int>::empty());
        }
        while t < positions.len()
            invariant
                t <= positions@.len(),
                fv == flat_views(arena@),
                layer == entry_views(positions@),
                layer.len() == positions@.len(),
                printer_wf(*self),
                arena_wf(arena@),
                width_map@.len() == arena@.len(),
                forall|i: int|
                    0 <= i < arena@.len() ==> #[trigger] width_map@[i] == spec_subtree_width(
                        fv,
                        self.aligner.gap as int,
                        i,
                    ),
                spec_widths_fit(fv, self.aligner.gap as int),
                widths_positive(fv, self.aligner.gap as int),
                forall|t2: int|
                    0 <= t2 < positions@.len() ==> (#[trigger] positions@[t2]).0 < arena@.len(),
                spec_handle_all(*self, fv, m0, layer) == (match spec_handle_all(
                    *self,
                    fv,
                    buffer@,
                    layer.skip(t as int),
                ) {
                    Ok(rest) => Ok::<_, RenderError>(
                        (
                            rest.0,
                            entry_views(new_positions@) + rest.1,
                            bottom_views(child_bottoms@) + rest.2,
                        ),
                    ),
                    Err(e) => Err(e),
                }),
            decreases positions@.len() - t,
        {
            let entry = positions[t];
            proof {
                assert(layer.skip(t as int)[0] == layer[t as int]);
                assert(layer[t as int] == (entry.0 as int, entry.1));
                assert(layer.skip(t as int).drop_first() =~= layer.skip(t + 1));
            }
            let got = match self.handle_node_children(
                buffer,
                arena,
                width_map,
                entry.0,
                entry.1,
            ) {
                Ok(g) => g,
                Err(e) => {
                    return Err(e);
                },
            };
            let (mut es, mut bs) = got;
            proof {
                let ghost d = spec_handle_node(*self, fv, buffer@, entry.0 as int, entry.1);
            }
            let ghost prev_entries = entry_views(new_positions@);
            let ghost prev_bottoms = bottom_views(child_bottoms@);
            let ghost got_entries = entry_views(es@);
            let ghost got_bottoms = bottom_views(bs@);
            new_positions.append(&mut es);
            child_bottoms.append(&mut bs);
            proof {
                assert(entry_views(new_positions@) =~= prev_entries + got_entries);
                assert(bottom_views(child_bottoms@) =~= prev_bottoms + got_bottoms);
            }
            t += 1;
            proof {
                match spec_handle_all(*self, fv, buffer@, layer.skip(t as int)) {
                    Ok(rest) => {
                        assert((prev_entries + got_entries) + rest.1 =~= prev_entries + (
                        got_entries + rest.1));
                        assert((prev_bottoms + got_bottoms) + rest.2 =~= prev_bottoms + (
                        got_bottoms + rest.2));
                    },
                    Err(_) => {},
                }
            }
        }
        proof {
            assert(layer.skip(positions@.len() as int) =~= Seq::<(int, Position)>::empty());
            match spec_handle_all(*self, fv, m0, layer) {
                Ok(done) => {
                    assert(entry_views(new_positions@) + Seq::<(int, Position)>::empty()
                        =~= entry_views(new_positions@));
                    assert(bottom_views(child_bottoms@) + Seq::<int>::empty() =~= bottom_views(
                        child_bottoms@,
                    ));
                    assert(done.0 == buffer@ && done.1 == entry_views(new_positions@) && done.2
                        == bottom_views(child_bottoms@));
                },
                Err(_) => {
                    assert(false);
                },
            }
        }
        if new_positions.len() > 0 {
            proof {
                lemma_handle_all_ids(*self, fv, m0, layer);
            }
            let low = min_bottom(&child_bottoms);
            buffer.flush(low as usize);
        }
        Ok(new_positions)
    }
}


/// The last slot of a node's block is the node itself.
pub proof fn lemma_flat_root_rec(n: crate::tree_node::NodeModel, base: int)
    ensures
        spec_flat(n, base).len() == spec_size(n),
        spec_flat(n, base).last() == (FlatRec {
            content: n.content,
            children: crate::tree_node::spec_child_ids(n.children, base),
            is_placeholder: n.is_placeholder,
        }),
{
    lemma_flat_len(n, base);
    crate::tree_node::lemma_flat_seq_len(n.children, base);
}

/// Anything that renders a tree into a list of rows.
pub trait TreePrinter: Sized {
    /// The inputs a given printer accepts.
    spec fn print_wf(&self, root_node: TreeNode) -> bool;

    /// Renders the tree, returning the emitted rows in order.
    fn print(&self, root_node: TreeNode) -> (r: Result<Vec<String>, RenderError>)
        requires
            self.print_wf(root_node),
    ;
}

impl TreePrinter for TraditionalTreePrinter {
    /// The glyphs must not break rows, and every node must need at least one
    /// column: the layout gives a zero-width node no place.
    open spec fn print_wf(&self, root_node: TreeNode) -> bool {
        &&& printer_wf(*self)
        &&& widths_positive(spec_flat(root_node@, 0), self.aligner.gap as int)
    }

    /// Renders the whole tree and returns the emitted rows in order, top to
    /// bottom.  The root is placed at column 0 over its subtree's span; each
    /// following layer is placed, connected and written by
    /// [`TraditionalTreePrinter::print_next_generation`]; what remains
    /// pending at the end is flushed.  Fails with a range error exactly when
    /// a dimension or coordinate of the layout would not fit the coordinate
    /// width.
    fn print(&self, root_node: TreeNode) -> (r: Result<Vec<String>, RenderError>)
        ensures
            match (r, spec_print(*self, root_node@)) {
                (Ok(rows), Ok(sr)) => line_views(rows@) == sr,
                (Err(e), Err(e2)) => e == e2,
                _ => false,
            },
    {
        let root_node = &root_node;
        let ghost g = self.aligner.gap as int;
        let arena = flatten(root_node);
        let ghost fv = flat_views(arena@);
        proof {
            lemma_arena_wf_views(arena@);
        }
        let pair = match self.aligner.collect_widths(&arena) {
            Ok(p) => p,
            Err(e) => {
                return Err(e);
            },
        };
        let (width_map, root_width) = pair;
        let root_id = arena.len() - 1;
        proof {
            lemma_flat_root_rec(root_node@, 0);
            lemma_flat_views_index(arena@, root_id as int);
            assert(fv[root_id as int].content == root_node@.content);
            lemma_subtree_width_nonneg(fv, g, root_id as int);
        }
        let dims = match crate::util::content_dimension(arena[root_id].content.as_str()) {
            Ok(d) => d,
            Err(_) => {
                proof {
                    assert(false);
                }
                return Err(RenderError::NumericRange);
            },
        };
        let pl = self.aligner.align_node(0, root_width, dims.0);
        let mut buffer = LineBuffer::new();
        proof {
            assert(buffer@ == (BufModel {
                emitted: Seq::<Seq<char>>::empty(),
                pending: Seq::<Seq<char>>::empty(),
            }));
        }
        buffer.write(LinePosition::new(0, pl.left), arena[root_id].content.as_str());
        buffer.flush_all();
        let mut positions: Vec<(usize, Position)> = Vec::new();
        positions.push(
            (
                root_id,
                Position {
                    row: 0,
                    col: 0,
                    connection: pl.bottom_connection,
                    left: pl.left,
                    height: dims.1,
                },
            ),
        );
        let ghost layer0 = entry_views(positions@);
        let ghost m2 = buffer@;
        proof {
            assert(layer0 =~= seq![
                (
                    root_id as int,
                    Position {
                        row: 0,
                        col: 0,
                        connection: pl.bottom_connection,
                        left: pl.left,
                        height: dims.1,
                    },
                ),
            ]);
            assert(layer_ids_ok(fv, layer0));
        }
        while positions.len() > 0
            invariant
                fv == flat_views(arena@),
                g == self.aligner.gap as int,
                printer_wf(*self),
                arena_wf(arena@),
                arena_rec_wf(fv),
                width_map@.len() == arena@.len(),
                forall|i: int|
                    0 <= i < arena@.len() ==> #[trigger] width_map@[i] == spec_subtree_width(
                        fv,
                        g,
                        i,
                    ),
                spec_widths_fit(fv, g),
                widths_positive(fv, g),
                layer_ids_ok(fv, entry_views(positions@)),
                forall|t: int|
                    0 <= t < positions@.len() ==> (#[trigger] positions@[t]).0 < arena@.len(),
                spec_generations(*self, fv, m2, layer0) == spec_generations(
                    *self,
                    fv,
                    buffer@,
                    entry_views(positions@),
                ),
            decreases spec_max_id(entry_views(positions@)) + 1,
        {
            let ghost cur_layer = entry_views(positions@);
            let ghost m_head = buffer@;
            proof {
                lemma_next_generation_ids(*self, fv, m_head, cur_layer);
            }
            let next = match self.print_next_generation(&mut buffer, &arena, &width_map, &positions)
                {
                Ok(v) => v,
                Err(e) => {
                    return Err(e);
                },
            };
            positions = next;
            proof {
                assert forall|t: int|
                    0 <= t < positions@.len() implies (#[trigger] positions@[t]).0
                    < arena@.len() by {
                    assert(entry_views(positions@)[t].0 == positions@[t].0 as int);
                    assert(0 <= entry_views(positions@)[t].0 < fv.len());
                }
            }
        }
        proof {
            assert(entry_views(positions@).len() == 0);
            assert(spec_generations(*self, fv, buffer@, entry_views(positions@)) == Ok::<
                _,
                RenderError,
            >(buffer@));
        }
        buffer.flush_all();
        let rows = buffer.take_emitted();
        Ok(rows)
    }
}

impl Default for TraditionalTreePrinter {
    /// A centered printer with box-drawing glyphs that suppresses
    /// placeholder-only child lists.
    fn default() -> (r: TraditionalTreePrinter)
        ensures
            r.aligner == crate::aligner::spec_aligner_from(
                crate::config::HorizontalAlign::Center,
                1,
            ),
            r.liner.connections@ == crate::liner::spec_unicode_glyphs(),
            r.liner.top_height == 0 && r.liner.bottom_height == 1 && r.liner.display_bracket,
            !r.display_placeholders,
            printer_wf(r),
    {
        TraditionalTreePrinter {
            aligner: DefaultAligner::default(),
            liner: DefaultLiner::default(),
            display_placeholders: false,
        }
    }
}


/// A printer that first maps the tree through a caller-supplied
/// transformation and then hands it to an inner printer.
pub struct MappingTreePrinter<P: TreePrinter, F: Fn(TreeNode) -> TreeNode> {
    printer: P,
    mapper: F,
}

impl<P: TreePrinter, F: Fn(TreeNode) -> TreeNode> MappingTreePrinter<P, F> {
    /// The inner printer.
    pub closed spec fn spec_printer(&self) -> P {
        self.printer
    }

    /// The transformation applied before printing.
    pub closed spec fn spec_mapper(&self) -> F {
        self.mapper
    }

    pub fn new(printer: P, mapper: F) -> (r: MappingTreePrinter<P, F>)
        ensures
            r.spec_printer() == printer && r.spec_mapper() == mapper,
    {
        MappingTreePrinter { printer, mapper }
    }
}

impl<P: TreePrinter, F: Fn(TreeNode) -> TreeNode> TreePrinter for MappingTreePrinter<P, F> {
    /// The mapper must accept the tree, and whatever it yields must be a tree
    /// the inner printer accepts.
    open spec fn print_wf(&self, root_node: TreeNode) -> bool {
        &&& call_requires(self.spec_mapper(), (root_node,))
        &&& forall|m: TreeNode|
            call_ensures(self.spec_mapper(), (root_node,), m) ==> self.spec_printer().print_wf(m)
    }

    fn print(&self, root_node: TreeNode) -> (r: Result<Vec<String>, RenderError>) {
        let ghost rn = root_node;
        let mapped = (self.mapper)(root_node);
        proof {
            assert(call_ensures(self.spec_mapper(), (rn,), mapped));
            assert(self.spec_printer().print_wf(mapped));
        }
        self.printer.print(mapped)
    }
}


/// Rendering is a function of the tree and the configuration alone: the same
/// tree rendered twice with the same printer gives byte-identical output.
pub proof fn lemma_render_deterministic(
    p: TraditionalTreePrinter,
    root: crate::tree_node::NodeModel,
    r1: Seq<Seq<char>>,
    r2: Seq<Seq<char>>,
)
    requires
        spec_print(p, root) == Ok::<Seq<Seq<char>>, RenderError>(r1),
        spec_print(p, root) == Ok::<Seq<Seq<char>>, RenderError>(r2),
    ensures
        r1 == r2,
{
}

/// With placeholder display off, a node whose children are all placeholders
/// renders as a leaf: no connector is drawn, nothing is written, and it
/// contributes no next-layer entries.
pub proof fn lemma_placeholder_suppression(
    p: TraditionalTreePrinter,
    arena: Seq<FlatRec>,
    m: BufModel,
    node: int,
    pos: Position,
)
    requires
        0 <= node < arena.len(),
        !p.display_placeholders,
        all_placeholders(arena, arena[node].children),
    ensures
        spec_handle_node(p, arena, m, node, pos) == Ok::<
            (BufModel, Seq<(int, Position)>, Seq<int>),
            RenderError,
        >((m, Seq::empty(), Seq::empty())),
{
}


/// Every node's content has at least one line.
pub open spec fn heights_positive(arena: Seq<FlatRec>) -> bool {
    forall|i: int| 0 <= i < arena.len() ==> spec_content_height(#[trigger] arena[i].content) >= 1
}

/// Rows node `i`'s rendered subtree occupies below its own top row: its
/// content height, and, when its children are rendered, one connector plus
/// the tallest child subtree.
pub open spec fn spec_render_height(p: TraditionalTreePrinter, arena: Seq<FlatRec>, i: int) -> int
    decreases i, arena[i].children.len() + 2,
        when arena_rec_wf(arena) && 0 <= i < arena.len()
{
    let children = arena[i].children;
    spec_content_height(arena[i].content) + (if children.len() == 0 || (!p.display_placeholders
        && all_placeholders(arena, children)) {
        0int
    } else {
        spec_connection_rows(p.liner) + spec_children_render_max(p, arena, i, 0)
    })
}

/// The tallest rendered subtree among node `i`'s children from index `t` on.
pub open spec fn spec_children_render_max(
    p: TraditionalTreePrinter,
    arena: Seq<FlatRec>,
    i: int,
    t: int,
) -> int
    decreases i, arena[i].children.len() - t + 1,
        when arena_rec_wf(arena) && 0 <= i < arena.len() && 0 <= t <= arena[i].children.len()
{
    if t >= arena[i].children.len() {
        0
    } else {
        crate::text::spec_max(
            spec_render_height(p, arena, arena[i].children[t]),
            spec_children_render_max(p, arena, i, t + 1),
        )
    }
}

/// A rendered subtree is at least as tall as its own content.
pub proof fn lemma_render_height_pos(p: TraditionalTreePrinter, arena: Seq<FlatRec>, i: int)
    requires
        arena_rec_wf(arena),
        0 <= i < arena.len(),
        heights_positive(arena),
        spec_connection_rows(p.liner) >= 0,
    ensures
        spec_render_height(p, arena, i) >= spec_content_height(arena[i].content),
        spec_render_height(p, arena, i) >= 1,
    decreases i, arena[i].children.len() + 2,
{
    lemma_children_render_max_pos(p, arena, i, 0);
}

/// The tallest child subtree is never negative, and bounds each child.
pub proof fn lemma_children_render_max_pos(
    p: TraditionalTreePrinter,
    arena: Seq<FlatRec>,
    i: int,
    t: int,
)
    requires
        arena_rec_wf(arena),
        0 <= i < arena.len(),
        0 <= t <= arena[i].children.len(),
        heights_positive(arena),
        spec_connection_rows(p.liner) >= 0,
    ensures
        spec_children_render_max(p, arena, i, t) >= 0,
        forall|k: int|
            t <= k < arena[i].children.len() ==> spec_render_height(
                p,
                arena,
                #[trigger] arena[i].children[k],
            ) <= spec_children_render_max(p, arena, i, t),
    decreases i, arena[i].children.len() - t + 1,
{
    if t < arena[i].children.len() {
        lemma_render_height_pos(p, arena, arena[i].children[t]);
        lemma_children_render_max_pos(p, arena, i, t + 1);
    }
}

/// Entry heights record their node's content height.
pub open spec fn entries_wf(arena: Seq<FlatRec>, layer: Seq<(int, Position)>) -> bool {
    forall|t: int|
        0 <= t < layer.len() ==> (#[trigger] layer[t]).1.height == spec_content_height(
            arena[layer[t].0].content,
        )
}

/// Every entry's content lies within the canvas.
pub open spec fn entries_within(m: BufModel, layer: Seq<(int, Position)>) -> bool {
    forall|t: int|
        0 <= t < layer.len() ==> (#[trigger] layer[t]).1.row + layer[t].1.height
            <= crate::text::canvas_len(m)
}

/// The lowest row any entry's rendered subtree can reach.
pub open spec fn spec_layer_extent(
    p: TraditionalTreePrinter,
    arena: Seq<FlatRec>,
    layer: Seq<(int, Position)>,
) -> int
    decreases layer.len(),
{
    if layer.len() == 0 {
        0
    } else {
        crate::text::spec_max(
            layer[0].1.row + spec_render_height(p, arena, layer[0].0),
            spec_layer_extent(p, arena, layer.drop_first()),
        )
    }
}


/// The lowest row any entry's own content block reaches.
pub open spec fn spec_entries_bottom_max(arena: Seq<FlatRec>, entries: Seq<(int, Position)>) -> int
    decreases entries.len(),
{
    if entries.len() == 0 {
        0
    } else {
        crate::text::spec_max(
            entries[0].1.row + spec_content_height(arena[entries[0].0].content),
            spec_entries_bottom_max(arena, entries.drop_first()),
        )
    }
}

/// Writing the entries' content blocks extends the canvas exactly to their
/// lowest bottom edge, or not at all.
pub proof fn lemma_write_entries_len(m: BufModel, arena: Seq<FlatRec>, entries: Seq<(int, Position)>)
    requires
        forall|t: int| 0 <= t < entries.len() ==> 0 <= (#[trigger] entries[t]).0 < arena.len(),
        forall|t: int|
            0 <= t < entries.len() ==> spec_content_height(
                arena[(#[trigger] entries[t]).0].content,
            ) >= 1,
    ensures
        crate::text::canvas_len(spec_write_entries(m, arena, entries)) == crate::text::spec_max(
            crate::text::canvas_len(m),
            spec_entries_bottom_max(arena, entries),
        ),
        spec_write_entries(m, arena, entries).emitted == m.emitted,
    decreases entries.len(),
{
    if entries.len() == 0 {
    } else {
        let e = entries[0];
        let lines = spec_lines(arena[e.0].content);
        crate::text::lemma_write_lines_len(m, e.1.row as int, e.1.left as int, lines);
        let m1 = spec_write_lines(m, e.1.row as int, e.1.left as int, lines);
        assert(forall|t: int|
            0 <= t < entries.drop_first().len() ==> entries.drop_first()[t] == entries[t + 1]);
        lemma_write_entries_len(m1, arena, entries.drop_first());
    }
}

/// For entries standing on one row for the children of one node, the layer
/// extent is that row plus the tallest child subtree.
proof fn lemma_entries_extent(
    p: TraditionalTreePrinter,
    arena: Seq<FlatRec>,
    node: int,
    child_row: int,
    entries: Seq<(int, Position)>,
    t: int,
)
    requires
        arena_rec_wf(arena),
        heights_positive(arena),
        spec_connection_rows(p.liner) >= 0,
        0 <= node < arena.len(),
        entries.len() == arena[node].children.len(),
        0 <= t < entries.len(),
        0 <= child_row,
        forall|k: int| 0 <= k < entries.len() ==> (#[trigger] entries[k]).0 == arena[node].children[k],
        forall|k: int| 0 <= k < entries.len() ==> (#[trigger] entries[k]).1.row == child_row,
    ensures
        spec_layer_extent(p, arena, entries.skip(t)) == child_row + spec_children_render_max(
            p,
            arena,
            node,
            t,
        ),
    decreases entries.len() - t,
{
    assert(entries.skip(t)[0] == entries[t]);
    assert(entries.skip(t).drop_first() =~= entries.skip(t + 1));
    lemma_render_height_pos(p, arena, arena[node].children[t]);
    if t == entries.len() - 1 {
        assert(entries.skip(t + 1).len() == 0);
        assert(spec_layer_extent(p, arena, entries.skip(t + 1)) == 0);
        assert(spec_children_render_max(p, arena, node, t + 1) == 0);
    } else {
        lemma_entries_extent(p, arena, node, child_row, entries, t + 1);
    }
}

/// How one handled node moves the canvas: a leaf leaves it alone; a rendered
/// child list extends it exactly to the children's lowest bottom edge, and
/// the node's own subtree extent equals its new entries' extent.
proof fn lemma_handle_node_rows(
    p: TraditionalTreePrinter,
    arena: Seq<FlatRec>,
    m: BufModel,
    node: int,
    pos: Position,
)
    requires
        arena_rec_wf(arena),
        heights_positive(arena),
        0 <= node < arena.len(),
        pos.height == spec_content_height(arena[node].content),
        pos.row + pos.height <= crate::text::canvas_len(m),
    ensures
        match spec_handle_node(p, arena, m, node, pos) {
            Ok(d) => {
                &&& crate::text::canvas_len(d.0) >= crate::text::canvas_len(m)
                &&& d.0.emitted == m.emitted
                &&& entries_wf(arena, d.1)
                &&& entries_within(d.0, d.1)
                &&& crate::text::spec_max(
                    crate::text::canvas_len(m),
                    pos.row + spec_render_height(p, arena, node),
                ) == crate::text::spec_max(
                    crate::text::canvas_len(d.0),
                    spec_layer_extent(p, arena, d.1),
                )
            },
            Err(_) => true,
        },
{
    let children = arena[node].children;
    let c0 = crate::text::canvas_len(m);
    if children.len() == 0 || (!p.display_placeholders && all_placeholders(arena, children)) {
        assert(spec_render_height(p, arena, node) == spec_content_height(arena[node].content));
    } else {
        let g = p.aligner.gap as int;
        let pw = spec_subtree_width(arena, g, node);
        let ws = child_widths(arena, g, children);
        if spec_align_children_fits(pw, ws, g, pos.col as int) && !(pos.row + pos.height
            + p.liner.top_height + 1 + p.liner.bottom_height > u32::MAX) {
            let conn_row = pos.row + pos.height;
            let crows = spec_connection_rows(p.liner);
            let child_row = conn_row + crows;
            if !(exists|k: int|
                0 <= k < children.len() && child_row + spec_content_height(
                    arena[#[trigger] children[k]].content,
                ) > u32::MAX) {
                let shift = spec_children_shift(
                    p.aligner.children_align,
                    pw,
                    spec_children_span(ws, g),
                );
                let cols = Seq::new(
                    children.len(),
                    |k: int| pos.col + spec_child_offset(ws, g, k) + shift,
                );
                let places = Seq::new(
                    children.len(),
                    |k: int|
                        spec_align_node(
                            p.aligner,
                            cols[k],
                            ws[k],
                            spec_content_width(arena[children[k]].content),
                        ),
                );
                let tops = Seq::new(children.len(), |k: int| places[k].top_connection);
                let m2 = spec_print_connections(m, p.liner, conn_row, pos.connection as int, tops);
                let entries = Seq::new(
                    children.len(),
                    |k: int|
                        (
                            children[k],
                            Position {
                                row: child_row as u32,
                                col: cols[k] as u32,
                                connection: places[k].bottom_connection,
                                left: places[k].left,
                                height: spec_content_height(arena[children[k]].content) as u32,
                            },
                        ),
                );
                let m3 = spec_write_entries(m2, arena, entries);
                crate::liner::lemma_print_connections_len(
                    m,
                    p.liner,
                    conn_row,
                    pos.connection as int,
                    tops,
                );
                assert(forall|t: int|
                    0 <= t < entries.len() ==> 0 <= (#[trigger] entries[t]).0 < arena.len());
                lemma_write_entries_len(m2, arena, entries);
                // the children's content reaches below the connector artwork
                assert(heights_positive(arena));
                assert(spec_content_height(arena[entries[0].0].content) >= 1);
                lemma_bottom_max_row(arena, entries, child_row);
                assert(spec_entries_bottom_max(arena, entries) >= child_row + 1);
                assert(conn_row + crate::liner::spec_connector_extent(p.liner) <= child_row + 1);
                lemma_entries_extent(p, arena, node, child_row, entries, 0);
                assert(entries.skip(0) =~= entries);
                assert(spec_layer_extent(p, arena, entries) == child_row
                    + spec_children_render_max(p, arena, node, 0));
                assert(spec_render_height(p, arena, node) == pos.height + crows
                    + spec_children_render_max(p, arena, node, 0));
                lemma_bottom_max_le_extent(p, arena, node, entries, child_row);
                assert(entries_within(m3, entries)) by {
                    lemma_bottom_max_bounds(arena, entries);
                    assert(forall|t: int|
                        0 <= t < entries.len() ==> (#[trigger] entries[t]).1.row + entries[t].1.height
                            == child_row + spec_content_height(arena[entries[t].0].content));
                }
            }
        }
    }
}

/// Every entry bottom is bounded by the entries' lowest bottom edge.
proof fn lemma_bottom_max_bounds(arena: Seq<FlatRec>, entries: Seq<(int, Position)>)
    ensures
        forall|t: int|
            0 <= t < entries.len() ==> (#[trigger] entries[t]).1.row + spec_content_height(
                arena[entries[t].0].content,
            ) <= spec_entries_bottom_max(arena, entries),
    decreases entries.len(),
{
    if entries.len() > 0 {
        lemma_bottom_max_bounds(arena, entries.drop_first());
        assert forall|t: int|
            0 <= t < entries.len() implies (#[trigger] entries[t]).1.row + spec_content_height(
            arena[entries[t].0].content,
        ) <= spec_entries_bottom_max(arena, entries) by {
            if t >= 1 {
                assert(entries.drop_first()[t - 1] == entries[t]);
                assert(entries.drop_first()[t - 1].1.row + spec_content_height(
                    arena[entries.drop_first()[t - 1].0].content,
                ) <= spec_entries_bottom_max(arena, entries.drop_first()));
            }
        }
    }
}

/// With every entry on one row and heights of at least one line, the lowest
/// bottom edge lies strictly below that row.
proof fn lemma_bottom_max_row(arena: Seq<FlatRec>, entries: Seq<(int, Position)>, child_row: int)
    requires
        entries.len() > 0,
        forall|k: int| 0 <= k < entries.len() ==> (#[trigger] entries[k]).1.row == child_row,
        forall|k: int| 0 <= k < entries.len() ==> 0 <= (#[trigger] entries[k]).0 < arena.len(),
        heights_positive(arena),
    ensures
        spec_entries_bottom_max(arena, entries) >= child_row + 1,
{
    assert(spec_content_height(arena[entries[0].0].content) >= 1);
    lemma_bottom_max_bounds(arena, entries);
    assert(entries[0].1.row + spec_content_height(arena[entries[0].0].content)
        <= spec_entries_bottom_max(arena, entries));
}

/// Content bottoms never pass the subtree extents.
proof fn lemma_bottom_max_le_extent(
    p: TraditionalTreePrinter,
    arena: Seq<FlatRec>,
    node: int,
    entries: Seq<(int, Position)>,
    child_row: int,
)
    requires
        arena_rec_wf(arena),
        heights_positive(arena),
        spec_connection_rows(p.liner) >= 0,
        0 <= node < arena.len(),
        entries.len() == arena[node].children.len(),
        entries.len() > 0,
        0 <= child_row,
        forall|k: int| 0 <= k < entries.len() ==> (#[trigger] entries[k]).0 == arena[node].children[k],
        forall|k: int| 0 <= k < entries.len() ==> (#[trigger] entries[k]).1.row == child_row,
    ensures
        spec_entries_bottom_max(arena, entries) <= spec_layer_extent(p, arena, entries),
{
    lemma_bottom_max_le_extent_from(p, arena, node, entries, child_row, 0);
    assert(entries.skip(0) =~= entries);
}

proof fn lemma_bottom_max_le_extent_from(
    p: TraditionalTreePrinter,
    arena: Seq<FlatRec>,
    node: int,
    entries: Seq<(int, Position)>,
    child_row: int,
    t: int,
)
    requires
        arena_rec_wf(arena),
        heights_positive(arena),
        spec_connection_rows(p.liner) >= 0,
        0 <= node < arena.len(),
        entries.len() == arena[node].children.len(),
        0 <= t <= entries.len(),
        0 <= child_row,
        forall|k: int| 0 <= k < entries.len() ==> (#[trigger] entries[k]).0 == arena[node].children[k],
        forall|k: int| 0 <= k < entries.len() ==> (#[trigger] entries[k]).1.row == child_row,
    ensures
        spec_entries_bottom_max(arena, entries.skip(t)) <= spec_layer_extent(
            p,
            arena,
            entries.skip(t),
        ),
    decreases entries.len() - t,
{
    if t < entries.len() {
        assert(entries.skip(t)[0] == entries[t]);
        assert(entries.skip(t).drop_first() =~= entries.skip(t + 1));
        lemma_render_height_pos(p, arena, arena[node].children[t]);
        lemma_bottom_max_le_extent_from(p, arena, node, entries, child_row, t + 1);
    } else {
        assert(entries.skip(t).len() == 0);
    }
}


/// A layer extent is never negative and bounds each entry's extent.
proof fn lemma_extent_nonneg(p: TraditionalTreePrinter, arena: Seq<FlatRec>, layer: Seq<(int, Position)>)
    requires
        arena_rec_wf(arena),
        heights_positive(arena),
        layer_ids_ok(arena, layer),
    ensures
        spec_layer_extent(p, arena, layer) >= 0,
    decreases layer.len(),
{
    if layer.len() > 0 {
        assert((layer[0]).0 < arena.len());
        lemma_render_height_pos(p, arena, layer[0].0);
        assert(forall|t: int|
            0 <= t < layer.drop_first().len() ==> layer.drop_first()[t] == layer[t + 1]);
        lemma_extent_nonneg(p, arena, layer.drop_first());
    }
}

/// The extent of two layers side by side is the larger of the two.
proof fn lemma_extent_concat(
    p: TraditionalTreePrinter,
    arena: Seq<FlatRec>,
    a: Seq<(int, Position)>,
    b: Seq<(int, Position)>,
)
    requires
        arena_rec_wf(arena),
        heights_positive(arena),
        layer_ids_ok(arena, b),
    ensures
        spec_layer_extent(p, arena, a + b) == crate::text::spec_max(
            spec_layer_extent(p, arena, a),
            spec_layer_extent(p, arena, b),
        ),
    decreases a.len(),
{
    if a.len() == 0 {
        assert(a + b =~= b);
        lemma_extent_nonneg(p, arena, b);
    } else {
        assert((a + b)[0] == a[0]);
        assert((a + b).drop_first() =~= a.drop_first() + b);
        lemma_extent_concat(p, arena, a.drop_first(), b);
    }
}

/// How one handled layer moves the canvas: it grows exactly as far as the
/// written children reach, and the layer's subtree extent carries over to
/// the new entries.
proof fn lemma_handle_all_rows(
    p: TraditionalTreePrinter,
    arena: Seq<FlatRec>,
    m: BufModel,
    layer: Seq<(int, Position)>,
)
    requires
        arena_rec_wf(arena),
        heights_positive(arena),
        layer_ids_ok(arena, layer),
        entries_wf(arena, layer),
        entries_within(m, layer),
    ensures
        match spec_handle_all(p, arena, m, layer) {
            Ok(done) => {
                &&& crate::text::canvas_len(done.0) >= crate::text::canvas_len(m)
                &&& done.0.emitted == m.emitted
                &&& layer_ids_ok(arena, done.1)
                &&& entries_wf(arena, done.1)
                &&& entries_within(done.0, done.1)
                &&& crate::text::spec_max(
                    crate::text::canvas_len(m),
                    spec_layer_extent(p, arena, layer),
                ) == crate::text::spec_max(
                    crate::text::canvas_len(done.0),
                    spec_layer_extent(p, arena, done.1),
                )
            },
            Err(_) => true,
        },
    decreases layer.len(),
{
    if layer.len() == 0 {
    } else {
        let e = layer[0];
        assert(e == layer[0]);
        lemma_handle_node_rows(p, arena, m, e.0, e.1);
        lemma_handle_node_ids(p, arena, m, e.0, e.1);
        match spec_handle_node(p, arena, m, e.0, e.1) {
            Err(_) => {},
            Ok(first) => {
                assert(forall|t: int|
                    0 <= t < layer.drop_first().len() ==> layer.drop_first()[t] == layer[t + 1]);
                lemma_handle_all_rows(p, arena, first.0, layer.drop_first());
                match spec_handle_all(p, arena, first.0, layer.drop_first()) {
                    Err(_) => {},
                    Ok(rest) => {
                        assert(layer_ids_ok(arena, first.1)) by {
                            assert(forall|t: int|
                                0 <= t < first.1.len() ==> 0 <= (#[trigger] first.1[t]).0 < e.0);
                        }
                        lemma_extent_concat(p, arena, first.1, rest.1);
                        assert(entries_wf(arena, first.1 + rest.1)) by {
                            assert(forall|t: int|
                                0 <= t < first.1.len() ==> (first.1 + rest.1)[t] == first.1[t]);
                            assert(forall|t: int|
                                first.1.len() <= t < first.1.len() + rest.1.len() ==> (first.1
                                    + rest.1)[t] == rest.1[t - first.1.len()]);
                        }
                        assert(entries_within(rest.0, first.1 + rest.1)) by {
                            assert(forall|t: int|
                                0 <= t < first.1.len() ==> (first.1 + rest.1)[t] == first.1[t]);
                            assert(forall|t: int|
                                first.1.len() <= t < first.1.len() + rest.1.len() ==> (first.1
                                    + rest.1)[t] == rest.1[t - first.1.len()]);
                        }
                        assert(layer_ids_ok(arena, first.1 + rest.1)) by {
                            assert(forall|t: int|
                                0 <= t < first.1.len() ==> (first.1 + rest.1)[t] == first.1[t]);
                            assert(forall|t: int|
                                first.1.len() <= t < first.1.len() + rest.1.len() ==> (first.1
                                    + rest.1)[t] == rest.1[t - first.1.len()]);
                        }
                        let c = crate::text::canvas_len(m);
                        let c1 = crate::text::canvas_len(first.0);
                        let c2 = crate::text::canvas_len(rest.0);
                        let e0 = e.1.row + spec_render_height(p, arena, e.0);
                        let xf = spec_layer_extent(p, arena, first.1);
                        let xd = spec_layer_extent(p, arena, layer.drop_first());
                        let xr = spec_layer_extent(p, arena, rest.1);
                        assert(spec_layer_extent(p, arena, layer) == crate::text::spec_max(e0, xd));
                        assert(crate::text::spec_max(c, e0) == crate::text::spec_max(c1, xf));
                        assert(crate::text::spec_max(c1, xd) == crate::text::spec_max(c2, xr));
                        assert(crate::text::spec_max(c, crate::text::spec_max(e0, xd))
                            == crate::text::spec_max(c2, crate::text::spec_max(xf, xr)));
                    },
                }
            },
        }
    }
}

/// How the whole layer loop moves the canvas: it ends exactly at the deepest
/// subtree extent of the starting layer, or where it already stood.
proof fn lemma_generations_rows(
    p: TraditionalTreePrinter,
    arena: Seq<FlatRec>,
    m: BufModel,
    layer: Seq<(int, Position)>,
)
    requires
        arena_rec_wf(arena),
        heights_positive(arena),
        layer_ids_ok(arena, layer),
        entries_wf(arena, layer),
        entries_within(m, layer),
    ensures
        match spec_generations(p, arena, m, layer) {
            Ok(mf) => crate::text::canvas_len(mf) == crate::text::spec_max(
                crate::text::canvas_len(m),
                spec_layer_extent(p, arena, layer),
            ),
            Err(_) => true,
        },
    decreases spec_max_id(layer) + 1,
{
    if layer.len() == 0 {
    } else {
        lemma_next_generation_ids(p, arena, m, layer);
        lemma_handle_all_rows(p, arena, m, layer);
        match spec_handle_all(p, arena, m, layer) {
            Err(_) => {},
            Ok(done) => {
                let flushed = if done.1.len() > 0 {
                    spec_flush(done.0, spec_min_seq(done.2))
                } else {
                    done.0
                };
                crate::text::lemma_flush_preserves_rows(done.0, spec_min_seq(done.2));
                assert(crate::text::canvas_len(flushed) == crate::text::canvas_len(done.0)) by {
                    crate::text::lemma_flush_len(done.0, spec_min_seq(done.2));
                }
                assert(entries_within(flushed, done.1));
                lemma_generations_rows(p, arena, flushed, done.1);
            },
        }
    }
}

/// The row-count law: a rendering holds exactly as many rows as the deepest
/// root-to-leaf accumulation of content heights and connector rows, provided
/// every node's content has at least one line.
pub proof fn lemma_print_row_count(p: TraditionalTreePrinter, root: crate::tree_node::NodeModel)
    requires
        heights_positive(spec_flat(root, 0)),
    ensures
        match spec_print(p, root) {
            Ok(rows) => rows.len() == spec_render_height(
                p,
                spec_flat(root, 0),
                spec_flat(root, 0).len() - 1,
            ),
            Err(_) => true,
        },
{
    let arena = spec_flat(root, 0);
    let g = p.aligner.gap as int;
    if spec_widths_fit(arena, g) {
        lemma_flat_wf(root, 0);
        lemma_flat_len(root, 0);
        lemma_size_pos(root);
        assert(arena_rec_wf(arena)) by {
            assert(forall|k: int, j: int|
                0 <= k < arena.len() && 0 <= j < arena[k].children.len() ==> 0
                    <= #[trigger] arena[k].children[j] < k);
        }
        let root_id = arena.len() - 1;
        lemma_flat_root_rec(root, 0);
        assert(arena[root_id].content == root.content);
        let rcw = spec_content_width(root.content);
        let rch = spec_content_height(root.content);
        let rootw = spec_subtree_width(arena, g, root_id);
        let pl = spec_align_node(p.aligner, 0, rootw, rcw);
        let m0 = BufModel { emitted: Seq::empty(), pending: Seq::empty() };
        let m1 = spec_write_lines(m0, 0, pl.left as int, spec_lines(root.content));
        let m2 = spec_flush_all(m1);
        crate::text::lemma_write_lines_appends(m0, 0, pl.left as int, spec_lines(root.content));
        assert(crate::text::canvas_len(m2) == rch) by {
            crate::text::lemma_flush_len(m1, 0);
        }
        let e = (
            root_id,
            Position {
                row: 0,
                col: 0,
                connection: pl.bottom_connection,
                left: pl.left,
                height: rch as u32,
            },
        );
        let layer0 = seq![e];
        assert(rch >= 1);
        assert(layer_ids_ok(arena, layer0));
        assert(entries_wf(arena, layer0));
        assert(entries_within(m2, layer0));
        lemma_generations_rows(p, arena, m2, layer0);
        match spec_generations(p, arena, m2, layer0) {
            Err(_) => {},
            Ok(mf) => {
                assert(layer0.drop_first() =~= Seq::<(int, Position)>::empty());
                assert(spec_layer_extent(p, arena, Seq::<(int, Position)>::empty()) == 0);
                lemma_render_height_pos(p, arena, root_id);
                assert(spec_layer_extent(p, arena, layer0) == spec_render_height(
                    p,
                    arena,
                    root_id,
                ));
                assert(crate::text::canvas_len(mf) == spec_render_height(p, arena, root_id));
                crate::text::lemma_flush_len(mf, 0);
                assert(spec_flush_all(mf).emitted.len() == crate::text::canvas_len(mf));
            },
        }
    }
}

} // verus!
