use vstd::prelude::*;
use crate::grid::{dimensions_valid, visit, Grid, GridError, Node, NodeType, CELL_SIDE};

verus! {

/// The step of the editing workflow.
#[derive(Clone, Copy, Debug, PartialEq, Eq, Structural)]
pub enum PlaygroundState {
    SelectStartPoint,
    SelectDestination,
    BuildWall,
    Play,
}

impl PlaygroundState {
    /// The kind a click places in this phase; `None` in `Play`, where a click
    /// marks neighbours instead.
    pub open spec fn placement(self) -> Option<NodeType> {
        match self {
            PlaygroundState::SelectStartPoint => Some(NodeType::Start),
            PlaygroundState::SelectDestination => Some(NodeType::Destination),
            PlaygroundState::BuildWall => Some(NodeType::Wall),
            PlaygroundState::Play => None,
        }
    }

    /// The phase after a click placed a cell.
    pub open spec fn after_placement(self) -> PlaygroundState {
        match self {
            PlaygroundState::SelectStartPoint => PlaygroundState::SelectDestination,
            PlaygroundState::SelectDestination => PlaygroundState::BuildWall,
            _ => self,
        }
    }

    /// The phase after a confirmation.
    pub open spec fn after_enter(self) -> PlaygroundState {
        match self {
            PlaygroundState::BuildWall => PlaygroundState::Play,
            _ => self,
        }
    }
}

/// An input, with a click already given in grid coordinates.
#[derive(Clone, Copy, Debug, PartialEq, Eq, Structural)]
pub enum InputEvent {
    MousePressed { x: u32, y: u32 },
    Enter,
    Quit,
}

impl InputEvent {
    /// A click at pixel `(px, py)` of the drawing area, as a click on the cell
    /// under it; `None` for a point left of or above the area.
    pub fn click_at_pixel(px: i32, py: i32) -> (r: Option<InputEvent>)
        ensures
            px < 0 || py < 0 ==> r is None,
            px >= 0 && py >= 0 ==> r == Some(
                InputEvent::MousePressed { x: (px as int / CELL_SIDE as int) as u32, y: (py as int / CELL_SIDE as int) as u32 },
            ),
    {
        if px < 0 || py < 0 {
            return None;
        }
        Some(InputEvent::MousePressed { x: px as u32 / CELL_SIDE, y: py as u32 / CELL_SIDE })
    }
}

/// Some cell of `cells` has kind `t`.
pub open spec fn has_kind(cells: Seq<Node>, t: NodeType) -> bool {
    exists|i: int| 0 <= i < cells.len() && (#[trigger] cells[i]).node_type == t
}

/// No two cells of `cells` have kind `t`.
pub open spec fn at_most_one(cells: Seq<Node>, t: NodeType) -> bool {
    forall|i: int, j: int|
        0 <= i < cells.len() && 0 <= j < cells.len() && (#[trigger] cells[i]).node_type == t && (
        #[trigger] cells[j]).node_type == t ==> i == j
}

/// The roles on the board fit the phase: there is never more than one start
/// nor more than one destination; the start exists once it was chosen, and
/// the destination while walls are being built.
pub open spec fn roles_fit(cells: Seq<Node>, state: PlaygroundState) -> bool {
    &&& at_most_one(cells, NodeType::Start)
    &&& at_most_one(cells, NodeType::Destination)
    &&& match state {
        PlaygroundState::SelectStartPoint => !has_kind(cells, NodeType::Start) && !has_kind(
            cells,
            NodeType::Destination,
        ),
        PlaygroundState::SelectDestination => has_kind(cells, NodeType::Start) && !has_kind(
            cells,
            NodeType::Destination,
        ),
        PlaygroundState::BuildWall => has_kind(cells, NodeType::Start) && has_kind(
            cells,
            NodeType::Destination,
        ),
        PlaygroundState::Play => has_kind(cells, NodeType::Start),
    }
}

/// Placing the phase's kind on an empty cell keeps the roles fitting the
/// phase that follows.
proof fn lemma_placement_fits(cells: Seq<Node>, state: PlaygroundState, k: int, n: Node)
    requires
        roles_fit(cells, state),
        state.placement() == Some(n.node_type),
        0 <= k < cells.len(),
        cells[k].node_type == NodeType::Empty,
    ensures
        roles_fit(cells.update(k, n), state.after_placement()),
{
    let after = cells.update(k, n);
    assert forall|i: int| 0 <= i < cells.len() && i != k implies after[i] == cells[i] by {}
    assert(after[k] == n);
    if has_kind(cells, NodeType::Start) {
        let i = choose|i: int| 0 <= i < cells.len() && (#[trigger] cells[i]).node_type == NodeType::Start;
        assert(after[i].node_type == NodeType::Start);
    }
    if has_kind(cells, NodeType::Destination) {
        let i = choose|i: int|
            0 <= i < cells.len() && (#[trigger] cells[i]).node_type == NodeType::Destination;
        assert(after[i].node_type == NodeType::Destination);
    }
    if has_kind(after, NodeType::Start) && n.node_type != NodeType::Start {
        let i = choose|i: int| 0 <= i < after.len() && (#[trigger] after[i]).node_type == NodeType::Start;
        assert(cells[i].node_type == NodeType::Start);
    }
    if has_kind(after, NodeType::Destination) && n.node_type != NodeType::Destination {
        let i = choose|i: int|
            0 <= i < after.len() && (#[trigger] after[i]).node_type == NodeType::Destination;
        assert(cells[i].node_type == NodeType::Destination);
    }
}

/// Marking neighbours visited keeps the roles fitting `Play`.
proof fn lemma_visit_fits(cells: Seq<Node>, x: int, y: int)
    requires
        roles_fit(cells, PlaygroundState::Play),
    ensures
        roles_fit(cells.map_values(|n: Node| visit(x, y, n)), PlaygroundState::Play),
{
    let after = cells.map_values(|n: Node| visit(x, y, n));
    assert forall|i: int| 0 <= i < cells.len() implies #[trigger] after[i] == visit(x, y, cells[i]) by {}
    let i = choose|i: int| 0 <= i < cells.len() && (#[trigger] cells[i]).node_type == NodeType::Start;
    assert(after[i].node_type == NodeType::Start);
}

/// What the event loop does after an event.
#[derive(Clone, Copy, Debug, PartialEq, Eq, Structural)]
pub enum Flow {
    Continue,
    Quit,
}

/// The grid together with the phase of the workflow.
pub struct Playground {
    grid: Grid,
    state: PlaygroundState,
}

impl Playground {
    /// The board's grid.
    pub closed spec fn grid_spec(&self) -> Grid {
        self.grid
    }

    /// The current phase.
    pub closed spec fn state_spec(&self) -> PlaygroundState {
        self.state
    }

    /// The grid is well formed and its roles fit the phase.
    pub open spec fn wf(&self) -> bool {
        self.grid_spec().wf() && roles_fit(self.grid_spec().cells(), self.state_spec())
    }

    /// A click at `(x, y)` places a cell in the current phase.
    pub open spec fn places(&self, x: int, y: int) -> bool {
        &&& self.state_spec().placement() is Some
        &&& self.grid_spec().in_bounds(x, y)
        &&& self.grid_spec().kind_at(x, y) == NodeType::Empty
    }

    /// `other` holds the same cells in the same phase.
    pub open spec fn unchanged_by(&self, other: Playground) -> bool {
        other.grid_spec().cells() == self.grid_spec().cells() && other.state_spec() == self.state_spec()
    }

    /// The cells after `event`.
    pub open spec fn next_cells(&self, event: InputEvent) -> Seq<Node> {
        let g = self.grid_spec();
        match event {
            InputEvent::MousePressed { x, y } => match self.state_spec().placement() {
                Some(t) => if self.places(x as int, y as int) {
                    g.placed(x as int, y as int, t)
                } else {
                    g.cells()
                },
                None => if g.in_bounds(x as int, y as int) {
                    g.visited_from(x as int, y as int)
                } else {
                    g.cells()
                },
            },
            _ => g.cells(),
        }
    }

    /// The phase after `event`.
    pub open spec fn next_state(&self, event: InputEvent) -> PlaygroundState {
        match event {
            InputEvent::MousePressed { x, y } => if self.places(x as int, y as int) {
                self.state_spec().after_placement()
            } else {
                self.state_spec()
            },
            InputEvent::Enter => self.state_spec().after_enter(),
            InputEvent::Quit => self.state_spec(),
        }
    }

    /// A click at `(x, y)` in a placing phase keeps the roles fitting the phase.
    proof fn lemma_click_fits(&self, x: int, y: int)
        requires
            self.wf(),
            self.state_spec().placement() is Some,
        ensures
            self.places(x, y) ==> roles_fit(
                self.grid_spec().placed(x, y, self.state_spec().placement().unwrap()),
                self.state_spec().after_placement(),
            ),
    {
        let g = self.grid_spec();
        if self.places(x, y) {
            g.lemma_index_of(x, y);
            lemma_placement_fits(
                g.cells(),
                self.state_spec(),
                g.index_of(x, y),
                Node {
                    position: crate::grid::Position { x: x as u32, y: y as u32 },
                    node_type: self.state_spec().placement().unwrap(),
                },
            );
        }
    }

    /// A `width` by `height` board of empty cells, waiting for the start to be
    /// chosen. Fails as `Grid::new` does.
    pub fn new(width: u32, height: u32) -> (r: Result<Playground, GridError>)
        ensures
            r is Err <==> !dimensions_valid(width as int, height as int),
            r is Err ==> r == Err::<Playground, GridError>(GridError::InvalidDimensions),
            r matches Ok(p) ==> {
                &&& p.wf()
                &&& p.state_spec() == PlaygroundState::SelectStartPoint
                &&& p.grid_spec().width_spec() == width
                &&& p.grid_spec().height_spec() == height
                &&& forall|i: int|
                    0 <= i < p.grid_spec().cells().len() ==> (#[trigger] p.grid_spec().cells()[i]).node_type
                        == NodeType::Empty
            },
    {
        match Grid::new(width, height) {
            Ok(grid) => Ok(Playground { grid, state: PlaygroundState::SelectStartPoint }),
            Err(e) => Err(e),
        }
    }

    /// A board on a grid prepared elsewhere, waiting for the start to be
    /// chosen; `None` when the grid already holds a start or a destination.
    pub fn from_grid(grid: Grid) -> (r: Option<Playground>)
        requires
            grid.wf(),
        ensures
            r is Some <==> !has_kind(grid.cells(), NodeType::Start) && !has_kind(
                grid.cells(),
                NodeType::Destination,
            ),
            r matches Some(p) ==> p.wf() && p.grid_spec() == grid && p.state_spec()
                == PlaygroundState::SelectStartPoint,
    {
        let mut i: usize = 0;
        while i < grid.nodes().len()
            invariant
                i <= grid.cells().len(),
                forall|j: int|
                    0 <= j < i ==> (#[trigger] grid.cells()[j]).node_type != NodeType::Start
                        && grid.cells()[j].node_type != NodeType::Destination,
            decreases grid.cells().len() - i,
        {
            let t = grid.nodes()[i].node_type;
            if t == NodeType::Start || t == NodeType::Destination {
                return None;
            }
            i = i + 1;
        }
        Some(Playground { grid, state: PlaygroundState::SelectStartPoint })
    }

    pub fn grid(&self) -> (r: &Grid)
        ensures
            *r == self.grid_spec(),
    {
        &self.grid
    }

    pub fn state(&self) -> (r: PlaygroundState)
        ensures
            r == self.state_spec(),
    {
        self.state
    }

    /// Gives cell `(x, y)` the kind `node_type` if it is empty; reports
    /// whether it did. Nothing changes otherwise.
    fn configure_node(&mut self, x: u32, y: u32, node_type: NodeType) -> (r: bool)
        requires
            old(self).grid_spec().wf(),
        ensures
            final(self).grid_spec().wf(),
            final(self).state_spec() == old(self).state_spec(),
            final(self).grid_spec().width_spec() == old(self).grid_spec().width_spec(),
            final(self).grid_spec().height_spec() == old(self).grid_spec().height_spec(),
            r == (old(self).grid_spec().in_bounds(x as int, y as int) && old(self).grid_spec().kind_at(
                x as int,
                y as int,
            ) == NodeType::Empty),
            r ==> final(self).grid_spec().cells() == old(self).grid_spec().placed(
                x as int,
                y as int,
                node_type,
            ),
            !r ==> final(self).grid_spec().cells() == old(self).grid_spec().cells(),
    {
        match self.grid.get_node(x, y) {
            Ok(node) => {
                if node.node_type == NodeType::Empty {
                    let _ = self.grid.set_node_type(x, y, node_type);
                    true
                } else {
                    false
                }
            },
            Err(_) => false,
        }
    }

    /// Applies one input event: a click places the phase's kind on an empty
    /// cell and moves the phase on (walls may be placed again and again), or
    /// in `Play` marks the neighbours of the clicked cell visited; a
    /// confirmation starts `Play` once walls are being built; a quit ends the
    /// loop. Clicks outside the grid and on occupied cells change nothing.
    pub fn process_event(&mut self, event: InputEvent) -> (r: Flow)
        requires
            old(self).wf(),
        ensures
            final(self).wf(),
            final(self).grid_spec().width_spec() == old(self).grid_spec().width_spec(),
            final(self).grid_spec().height_spec() == old(self).grid_spec().height_spec(),
            final(self).grid_spec().cells() == old(self).next_cells(event),
            final(self).state_spec() == old(self).next_state(event),
            r == (if event == InputEvent::Quit {
                Flow::Quit
            } else {
                Flow::Continue
            }),
            (event matches InputEvent::MousePressed { x, y }
                && !old(self).grid_spec().in_bounds(x as int, y as int)) ==> old(self).unchanged_by(
                *final(self),
            ),
            (event matches InputEvent::MousePressed { x, y }
                && old(self).state_spec() != PlaygroundState::Play
                && old(self).grid_spec().in_bounds(x as int, y as int)
                && old(self).grid_spec().kind_at(x as int, y as int) != NodeType::Empty) ==> old(
                self,
            ).unchanged_by(*final(self)),
            (event == InputEvent::Enter && old(self).state_spec() == PlaygroundState::Play) ==> old(
                self,
            ).unchanged_by(*final(self)),
    {
        match event {
            InputEvent::MousePressed { x, y } => match self.state {
                PlaygroundState::SelectStartPoint => {
                    proof {
                        self.lemma_click_fits(x as int, y as int);
                    }
                    if self.configure_node(x, y, NodeType::Start) {
                        self.state = PlaygroundState::SelectDestination;
                    }
                    Flow::Continue
                },
                PlaygroundState::SelectDestination => {
                    proof {
                        self.lemma_click_fits(x as int, y as int);
                    }
                    if self.configure_node(x, y, NodeType::Destination) {
                        self.state = PlaygroundState::BuildWall;
                    }
                    Flow::Continue
                },
                PlaygroundState::BuildWall => {
                    proof {
                        self.lemma_click_fits(x as int, y as int);
                    }
                    let _ = self.configure_node(x, y, NodeType::Wall);
                    Flow::Continue
                },
                PlaygroundState::Play => {
                    proof {
                        lemma_visit_fits(self.grid.cells(), x as int, y as int);
                    }
                    let _ = self.grid.mark_neighbors_visited(x, y);
                    Flow::Continue
                },
            },
            InputEvent::Enter => {
                if self.state == PlaygroundState::BuildWall {
                    self.state = PlaygroundState::Play;
                }
                Flow::Continue
            },
            InputEvent::Quit => Flow::Quit,
        }
    }
}

} // verus!
