use vstd::prelude::*;
use vstd::arithmetic::div_mod::{lemma_fundamental_div_mod, lemma_fundamental_div_mod_converse};

verus! {

/// Side length, in pixels, of the square drawn for one cell.
pub const CELL_SIDE: u32 = 30;

/// A cell coordinate: column `x`, row `y`, both counted from zero.
#[derive(Clone, Copy, Debug, PartialEq, Eq, Structural)]
pub struct Position {
    pub x: u32,
    pub y: u32,
}

/// The role a cell plays on the board.
#[derive(Clone, Copy, Debug, PartialEq, Eq, Structural)]
pub enum NodeType {
    Start,
    Destination,
    Wall,
    Visited,
    Empty,
}

/// The colour in which a cell of a given kind is drawn.
#[derive(Clone, Copy, Debug, PartialEq, Eq, Structural)]
pub enum NodeColor {
    Blue,
    Green,
    Red,
    White,
    Yellow,
}

impl NodeType {
    /// Start blue, destination green, wall red, empty white, visited yellow.
    pub open spec fn color_spec(self) -> NodeColor {
        match self {
            NodeType::Start => NodeColor::Blue,
            NodeType::Destination => NodeColor::Green,
            NodeType::Wall => NodeColor::Red,
            NodeType::Empty => NodeColor::White,
            NodeType::Visited => NodeColor::Yellow,
        }
    }

    /// A cell of this kind may join the frontier of a search.
    pub open spec fn is_open(self) -> bool {
        self == NodeType::Empty || self == NodeType::Destination
    }

    /// The fixed colour of this kind.
    pub fn color(&self) -> (r: NodeColor)
        ensures
            r == self.color_spec(),
    {
        match self {
            NodeType::Start => NodeColor::Blue,
            NodeType::Destination => NodeColor::Green,
            NodeType::Wall => NodeColor::Red,
            NodeType::Empty => NodeColor::White,
            NodeType::Visited => NodeColor::Yellow,
        }
    }
}

/// A coordinate scaled to pixels fits in a `u64`.
proof fn lemma_pixel_fits(v: u32)
    ensures
        v as int * CELL_SIDE as int <= u64::MAX,
{
    assert(v as int * 30 <= u64::MAX) by (nonlinear_arith)
        requires
            v <= u32::MAX,
    ;
}

/// One cell of the grid.
#[derive(Clone, Copy, Debug, PartialEq, Eq, Structural)]
pub struct Node {
    pub position: Position,
    pub node_type: NodeType,
}

impl Node {
    pub fn new(x: u32, y: u32, node_type: NodeType) -> (r: Node)
        ensures
            r.position == (Position { x, y }),
            r.node_type == node_type,
    {
        Node { position: Position { x, y }, node_type }
    }

    /// Gives the cell a new kind; its position stays.
    pub fn set_type(&mut self, node_type: NodeType)
        ensures
            final(self).position == old(self).position,
            final(self).node_type == node_type,
    {
        self.node_type = node_type;
    }

    /// This cell is a neighbour of `(x, y)` that a search could still expand into.
    pub fn is_neighbor_of(&self, x: u32, y: u32) -> (r: bool)
        ensures
            r == is_neighbor(x as int, y as int, *self),
    {
        let p = self.position;
        let open = match self.node_type {
            NodeType::Empty | NodeType::Destination => true,
            _ => false,
        };
        open && !(p.x == x && p.y == y) && p.x as u64 + 1 >= x as u64 && p.x as u64 <= x as u64 + 1
            && p.y as u64 + 1 >= y as u64 && p.y as u64 <= y as u64 + 1
    }

    /// The colour in which this cell is drawn.
    pub fn color(&self) -> (r: NodeColor)
        ensures
            r == self.node_type.color_spec(),
    {
        self.node_type.color()
    }

    /// The top-left corner, in pixels, of the square drawn for this cell.
    pub fn pixel_origin(&self) -> (r: (u64, u64))
        ensures
            r.0 == self.position.x * CELL_SIDE,
            r.1 == self.position.y * CELL_SIDE,
    {
        proof {
            lemma_pixel_fits(self.position.x);
            lemma_pixel_fits(self.position.y);
        }
        (self.position.x as u64 * CELL_SIDE as u64, self.position.y as u64 * CELL_SIDE as u64)
    }
}

/// Why a grid operation could not be carried out.
#[derive(Clone, Copy, Debug, PartialEq, Eq, Structural)]
pub enum GridError {
    /// The coordinate lies outside the grid.
    OutOfBounds,
    /// The grid cannot be built with the dimensions asked for.
    InvalidDimensions,
}

/// `p` differs from `(x, y)` by at most one in each axis, and is not `(x, y)`.
pub open spec fn is_adjacent(x: int, y: int, p: Position) -> bool {
    &&& !(p.x == x && p.y == y)
    &&& x - 1 <= p.x <= x + 1
    &&& y - 1 <= p.y <= y + 1
}

/// `n` is a neighbour of `(x, y)` that a search could still expand into.
pub open spec fn is_neighbor(x: int, y: int, n: Node) -> bool {
    is_adjacent(x, y, n.position) && n.node_type.is_open()
}

/// The neighbour test for `(x, y)` as a predicate on cells.
pub open spec fn neighbor_pred(x: int, y: int) -> spec_fn(Node) -> bool {
    |n: Node| is_neighbor(x, y, n)
}

/// What a visit from `(x, y)` makes of cell `n`.
pub open spec fn visit(x: int, y: int, n: Node) -> Node {
    if is_neighbor(x, y, n) {
        Node { node_type: NodeType::Visited, ..n }
    } else {
        n
    }
}

/// Each item of `s.filter(pred)` is an item of `s`; returns its index there.
pub proof fn lemma_filter_source<A>(s: Seq<A>, pred: spec_fn(A) -> bool, k: int) -> (i: int)
    requires
        0 <= k < s.filter(pred).len(),
    ensures
        0 <= i < s.len(),
        s[i] == s.filter(pred)[k],
    decreases s.len(),
{
    reveal(Seq::filter);
    let rest = s.drop_last().filter(pred);
    if k < rest.len() {
        lemma_filter_source(s.drop_last(), pred, k)
    } else {
        s.len() - 1
    }
}

/// A grid of `width` columns and `height` rows can be built: both are
/// positive, the cell count fits in a `u32`, and so do the drawing area's
/// width and height in pixels.
pub open spec fn dimensions_valid(width: int, height: int) -> bool {
    &&& width > 0
    &&& height > 0
    &&& width * height <= u32::MAX
    &&& width * CELL_SIDE <= u32::MAX
    &&& height * CELL_SIDE <= u32::MAX
}

/// The position of the cell stored at `index` in a grid `width` columns wide.
pub open spec fn position_of(index: int, width: int) -> Position {
    Position { x: (index % width) as u32, y: (index / width) as u32 }
}

/// Cells stored row by row; the cell at index `x + y * width` is `(x, y)`.
pub struct Grid {
    nodes: Vec<Node>,
    width: u32,
    height: u32,
}

impl Grid {
    /// The cells, row by row.
    pub closed spec fn cells(&self) -> Seq<Node> {
        self.nodes@
    }

    /// The number of columns.
    pub closed spec fn width_spec(&self) -> int {
        self.width as int
    }

    /// The number of rows.
    pub closed spec fn height_spec(&self) -> int {
        self.height as int
    }

    /// Both dimensions are positive, the cell count fits in a `u32`, and the
    /// cell stored at index `i` is `(i % width, i / width)`.
    pub open spec fn wf(&self) -> bool {
        &&& self.width_spec() > 0
        &&& self.height_spec() > 0
        &&& dimensions_valid(self.width_spec(), self.height_spec())
        &&& self.cells().len() == self.width_spec() * self.height_spec()
        &&& forall|i: int|
            0 <= i < self.cells().len() ==> (#[trigger] self.cells()[i]).position == position_of(
                i,
                self.width_spec(),
            )
    }

    /// `(x, y)` lies in the grid.
    pub open spec fn in_bounds(&self, x: int, y: int) -> bool {
        0 <= x < self.width_spec() && 0 <= y < self.height_spec()
    }

    /// Where cell `(x, y)` is stored.
    pub open spec fn index_of(&self, x: int, y: int) -> int {
        x + y * self.width_spec()
    }

    /// The kind of cell `(x, y)`.
    pub open spec fn kind_at(&self, x: int, y: int) -> NodeType {
        self.cells()[self.index_of(x, y)].node_type
    }

    /// The neighbours of `(x, y)`, in storage order.
    pub open spec fn neighbors(&self, x: int, y: int) -> Seq<Node> {
        self.cells().filter(neighbor_pred(x, y))
    }

    /// The cells after `(x, y)` took the kind `t`.
    pub open spec fn placed(&self, x: int, y: int, t: NodeType) -> Seq<Node> {
        self.cells().update(
            self.index_of(x, y),
            Node { position: Position { x: x as u32, y: y as u32 }, node_type: t },
        )
    }

    /// The cells after every neighbour of `(x, y)` was marked visited.
    pub open spec fn visited_from(&self, x: int, y: int) -> Seq<Node> {
        self.cells().map_values(|n: Node| visit(x, y, n))
    }

    /// A `width` by `height` grid of empty cells. Fails when a dimension is
    /// zero, when the number of cells does not fit in a `u32`, or when the
    /// drawing area is wider or taller than a `u32` counts pixels.
    pub fn new(width: u32, height: u32) -> (r: Result<Grid, GridError>)
        ensures
            r is Err <==> !dimensions_valid(width as int, height as int),
            r is Err ==> r == Err::<Grid, GridError>(GridError::InvalidDimensions),
            r matches Ok(g) ==> {
                &&& g.wf()
                &&& g.width_spec() == width
                &&& g.height_spec() == height
                &&& forall|i: int| 0 <= i < g.cells().len() ==> (#[trigger] g.cells()[i]).node_type == NodeType::Empty
            },
    {
        if width == 0 || height == 0 {
            return Err(GridError::InvalidDimensions);
        }
        proof {
            lemma_pixel_fits(width);
            lemma_pixel_fits(height);
        }
        if width as u64 * CELL_SIDE as u64 > u32::MAX as u64 || height as u64 * CELL_SIDE as u64
            > u32::MAX as u64 {
            return Err(GridError::InvalidDimensions);
        }
        assert(width as u64 * height as u64 <= u32::MAX as u64 * u32::MAX as u64) by (nonlinear_arith)
            requires
                width <= u32::MAX,
                height <= u32::MAX,
        ;
        let total: u64 = width as u64 * height as u64;
        if total > u32::MAX as u64 {
            return Err(GridError::InvalidDimensions);
        }
        let count: u32 = total as u32;
        let mut nodes: Vec<Node> = Vec::new();
        let mut i: u32 = 0;
        while i < count
            invariant
                count == width * height,
                width > 0,
                i <= count,
                nodes@.len() == i,
                forall|j: int|
                    0 <= j < i ==> (#[trigger] nodes@[j]).position == position_of(j, width as int)
                        && nodes@[j].node_type == NodeType::Empty,
            decreases count - i,
        {
            proof {
                vstd::arithmetic::div_mod::lemma_mod_pos_bound(i as int, width as int);
            }
            nodes.push(Node::new(i % width, i / width, NodeType::Empty));
            i = i + 1;
        }
        Ok(Grid { nodes, width, height })
    }

    pub fn width(&self) -> (r: u32)
        ensures
            r == self.width_spec(),
    {
        self.width
    }

    pub fn height(&self) -> (r: u32)
        ensures
            r == self.height_spec(),
    {
        self.height
    }

    /// Every cell, row by row.
    pub fn nodes(&self) -> (r: &Vec<Node>)
        ensures
            r@ == self.cells(),
    {
        &self.nodes
    }

    /// The size, in pixels, of the area the grid is drawn on.
    pub fn pixel_extent(&self) -> (r: (u32, u32))
        requires
            self.wf(),
        ensures
            r.0 == self.width_spec() * CELL_SIDE,
            r.1 == self.height_spec() * CELL_SIDE,
    {
        (self.width * CELL_SIDE, self.height * CELL_SIDE)
    }

    /// The cell at `(x, y)`, or `OutOfBounds` when the grid does not reach it.
    pub fn get_node(&self, x: u32, y: u32) -> (r: Result<Node, GridError>)
        requires
            self.wf(),
        ensures
            self.in_bounds(x as int, y as int) ==> r == Ok::<Node, GridError>(
                self.cells()[self.index_of(x as int, y as int)],
            ),
            self.in_bounds(x as int, y as int) ==> (r matches Ok(n) && n.position == (Position { x, y })),
            !self.in_bounds(x as int, y as int) ==> r == Err::<Node, GridError>(GridError::OutOfBounds),
    {
        if x >= self.width || y >= self.height {
            return Err(GridError::OutOfBounds);
        }
        proof {
            self.lemma_index_of(x as int, y as int);
        }
        let index: u32 = x + y * self.width;
        Ok(self.nodes[index as usize])
    }

    /// Gives cell `(x, y)` the kind `node_type`, whatever it held; fails with
    /// `OutOfBounds`, changing nothing, when the grid does not reach it.
    pub fn set_node_type(&mut self, x: u32, y: u32, node_type: NodeType) -> (r: Result<(), GridError>)
        requires
            old(self).wf(),
        ensures
            final(self).wf(),
            final(self).width_spec() == old(self).width_spec(),
            final(self).height_spec() == old(self).height_spec(),
            old(self).in_bounds(x as int, y as int) ==> r is Ok && final(self).cells() == old(
                self,
            ).placed(x as int, y as int, node_type),
            !old(self).in_bounds(x as int, y as int) ==> r == Err::<(), GridError>(GridError::OutOfBounds)
                && final(self).cells() == old(self).cells(),
    {
        if x >= self.width || y >= self.height {
            return Err(GridError::OutOfBounds);
        }
        proof {
            self.lemma_index_of(x as int, y as int);
        }
        let index: u32 = x + y * self.width;
        self.nodes.set(index as usize, Node::new(x, y, node_type));
        Ok(())
    }

    /// The cells next to `(x, y)`, diagonals included, that are empty or the
    /// destination, in storage order; `OutOfBounds` when the grid does not
    /// reach `(x, y)`.
    pub fn find_adjacent_nodes(&self, x: u32, y: u32) -> (r: Result<Vec<Node>, GridError>)
        requires
            self.wf(),
        ensures
            self.in_bounds(x as int, y as int) ==> (r matches Ok(v) && v@ == self.neighbors(
                x as int,
                y as int,
            )),
            !self.in_bounds(x as int, y as int) ==> r == Err::<Vec<Node>, GridError>(GridError::OutOfBounds),
            r matches Ok(v) ==> forall|k: int|
                0 <= k < v@.len() ==> {
                    let n = #[trigger] v@[k];
                    &&& n.position != (Position { x, y })
                    &&& self.in_bounds(n.position.x as int, n.position.y as int)
                    &&& n.node_type != NodeType::Wall
                    &&& n.node_type != NodeType::Start
                    &&& n.node_type != NodeType::Visited
                },
    {
        if x >= self.width || y >= self.height {
            return Err(GridError::OutOfBounds);
        }
        let ghost pred = neighbor_pred(x as int, y as int);
        let mut found: Vec<Node> = Vec::new();
        let mut i: usize = 0;
        while i < self.nodes.len()
            invariant
                i <= self.cells().len(),
                pred == neighbor_pred(x as int, y as int),
                found@ == self.cells().take(i as int).filter(pred),
            decreases self.cells().len() - i,
        {
            let n = self.nodes[i];
            proof {
                let before = self.cells().take(i as int);
                let after = self.cells().take(i as int + 1);
                assert(after.drop_last() =~= before);
                assert(after.last() == n);
                reveal(Seq::filter);
                assert(after.filter(pred) == if is_neighbor(x as int, y as int, n) {
                    before.filter(pred).push(n)
                } else {
                    before.filter(pred)
                });
            }
            if n.is_neighbor_of(x, y) {
                found.push(n);
            }
            i = i + 1;
        }
        proof {
            assert(self.cells().take(i as int) =~= self.cells());
            self.lemma_neighbors_sound(x as int, y as int);
        }
        Ok(found)
    }

    /// Marks every neighbour of `(x, y)` visited; fails with `OutOfBounds`,
    /// changing nothing, when the grid does not reach `(x, y)`.
    pub fn mark_neighbors_visited(&mut self, x: u32, y: u32) -> (r: Result<(), GridError>)
        requires
            old(self).wf(),
        ensures
            final(self).wf(),
            final(self).width_spec() == old(self).width_spec(),
            final(self).height_spec() == old(self).height_spec(),
            old(self).in_bounds(x as int, y as int) ==> r is Ok && final(self).cells() == old(
                self,
            ).visited_from(x as int, y as int),
            !old(self).in_bounds(x as int, y as int) ==> r == Err::<(), GridError>(GridError::OutOfBounds)
                && final(self).cells() == old(self).cells(),
    {
        if x >= self.width || y >= self.height {
            return Err(GridError::OutOfBounds);
        }
        let ghost before = self.cells();
        let mut i: usize = 0;
        while i < self.nodes.len()
            invariant
                self.wf(),
                self.width_spec() == old(self).width_spec(),
                self.height_spec() == old(self).height_spec(),
                before == old(self).cells(),
                i <= self.cells().len(),
                self.cells().len() == before.len(),
                forall|j: int| 0 <= j < i ==> #[trigger] self.cells()[j] == visit(x as int, y as int, before[j]),
                forall|j: int| i <= j < before.len() ==> #[trigger] self.cells()[j] == before[j],
            decreases self.cells().len() - i,
        {
            let n = self.nodes[i];
            if n.is_neighbor_of(x, y) {
                self.nodes.set(i, Node::new(n.position.x, n.position.y, NodeType::Visited));
            }
            i = i + 1;
        }
        proof {
            assert(self.cells() =~= before.map_values(|n: Node| visit(x as int, y as int, n)));
        }
        Ok(())
    }

    /// Every neighbour of `(x, y)` lies in the grid, is not `(x, y)` itself,
    /// and is neither a wall, the start nor a visited cell.
    pub proof fn lemma_neighbors_sound(&self, x: int, y: int)
        requires
            self.wf(),
        ensures
            forall|k: int|
                0 <= k < self.neighbors(x, y).len() ==> {
                    let n = #[trigger] self.neighbors(x, y)[k];
                    &&& !(n.position.x == x && n.position.y == y)
                    &&& self.in_bounds(n.position.x as int, n.position.y as int)
                    &&& n.node_type != NodeType::Wall
                    &&& n.node_type != NodeType::Start
                    &&& n.node_type != NodeType::Visited
                },
    {
        broadcast use vstd::seq_lib::group_filter_ensures;
        let pred = neighbor_pred(x, y);
        assert forall|k: int| 0 <= k < self.neighbors(x, y).len() implies {
            let n = #[trigger] self.neighbors(x, y)[k];
            self.in_bounds(n.position.x as int, n.position.y as int)
        } by {
            let i = lemma_filter_source(self.cells(), pred, k);
            self.lemma_cell_position(i);
        }
        assert forall|k: int| 0 <= k < self.neighbors(x, y).len() implies
            pred(#[trigger] self.neighbors(x, y)[k]) by {}
    }

    /// Marking from `(x, y)` turns exactly the cells listed by the neighbour
    /// query into visited cells, keeping their positions, and leaves every
    /// other cell as it was.
    pub proof fn lemma_visit_marks_neighbors(&self, x: int, y: int, i: int)
        requires
            self.wf(),
            0 <= i < self.cells().len(),
        ensures
            self.visited_from(x, y)[i] == (if self.neighbors(x, y).contains(self.cells()[i]) {
                Node { position: self.cells()[i].position, node_type: NodeType::Visited }
            } else {
                self.cells()[i]
            }),
    {
        broadcast use vstd::seq_lib::group_filter_ensures;
        let pred = neighbor_pred(x, y);
        if self.neighbors(x, y).contains(self.cells()[i]) {
            let k = choose|k: int|
                0 <= k < self.neighbors(x, y).len() && self.neighbors(x, y)[k] == self.cells()[i];
            assert(pred(self.neighbors(x, y)[k]));
        }
    }

    /// The cell stored at `i` lies in the grid, and `i` is its index.
    pub proof fn lemma_cell_position(&self, i: int)
        requires
            self.wf(),
            0 <= i < self.cells().len(),
        ensures
            self.in_bounds(self.cells()[i].position.x as int, self.cells()[i].position.y as int),
            self.index_of(self.cells()[i].position.x as int, self.cells()[i].position.y as int)
                == i,
    {
        let w = self.width_spec();
        let h = self.height_spec();
        lemma_fundamental_div_mod(i, w);
        assert(0 <= i % w < w) by {
            vstd::arithmetic::div_mod::lemma_mod_pos_bound(i, w);
        }
        let q = i / w;
        assert(0 <= q < h) by (nonlinear_arith)
            requires
                i == w * q + i % w,
                0 <= i % w < w,
                0 <= i < w * h,
                w > 0,
        ;
        assert(w * q == q * w) by (nonlinear_arith);
    }

    /// Cell `(x, y)` is stored at `x + y * width`, and holds that position.
    pub proof fn lemma_index_of(&self, x: int, y: int)
        requires
            self.wf(),
            self.in_bounds(x, y),
        ensures
            0 <= self.index_of(x, y) < self.cells().len(),
            self.cells()[self.index_of(x, y)].position == (Position { x: x as u32, y: y as u32 }),
    {
        let w = self.width_spec();
        let h = self.height_spec();
        let i = self.index_of(x, y);
        assert(0 <= i < w * h) by (nonlinear_arith)
            requires
                i == x + y * w,
                0 <= x < w,
                0 <= y < h,
        ;
        assert(i == y * w + x);
        lemma_fundamental_div_mod_converse(i, w, y, x);
    }
}

} // verus!
