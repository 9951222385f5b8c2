use pathgrid::grid::{Grid, GridError, NodeType, Position};
use pathgrid::playground::{Flow, InputEvent, Playground, PlaygroundState};

fn click(x: u32, y: u32) -> InputEvent {
    InputEvent::MousePressed { x, y }
}

fn kind(p: &Playground, x: u32, y: u32) -> NodeType {
    p.grid().get_node(x, y).unwrap().node_type
}

fn scenario_a_board() -> Playground {
    let mut p = Playground::new(3, 3).unwrap();
    assert_eq!(p.process_event(click(0, 0)), Flow::Continue);
    assert_eq!(p.process_event(click(1, 1)), Flow::Continue);
    assert_eq!(p.process_event(click(2, 2)), Flow::Continue);
    assert_eq!(p.process_event(InputEvent::Enter), Flow::Continue);
    p
}

#[test]
fn scenario_a_placing_start_destination_and_wall() {
    let mut p = Playground::new(3, 3).unwrap();
    assert_eq!(p.state(), PlaygroundState::SelectStartPoint);
    p.process_event(click(0, 0));
    assert_eq!(kind(&p, 0, 0), NodeType::Start);
    assert_eq!(p.state(), PlaygroundState::SelectDestination);
    p.process_event(click(1, 1));
    assert_eq!(kind(&p, 1, 1), NodeType::Destination);
    assert_eq!(p.state(), PlaygroundState::BuildWall);
    p.process_event(click(2, 2));
    assert_eq!(kind(&p, 2, 2), NodeType::Wall);
    assert_eq!(p.state(), PlaygroundState::BuildWall);
    p.process_event(InputEvent::Enter);
    assert_eq!(p.state(), PlaygroundState::Play);
}

#[test]
fn scenario_b_play_marks_open_neighbors_visited() {
    let mut p = scenario_a_board();
    let found: Vec<Position> =
        p.grid().find_adjacent_nodes(1, 1).unwrap().iter().map(|n| n.position).collect();
    assert_eq!(
        found,
        vec![
            Position { x: 1, y: 0 },
            Position { x: 2, y: 0 },
            Position { x: 0, y: 1 },
            Position { x: 2, y: 1 },
            Position { x: 0, y: 2 },
            Position { x: 1, y: 2 },
        ]
    );
    p.process_event(click(1, 1));
    for (x, y) in [(0, 1), (1, 0), (1, 2), (2, 1), (2, 0), (0, 2)] {
        assert_eq!(kind(&p, x, y), NodeType::Visited);
    }
    assert_eq!(kind(&p, 0, 0), NodeType::Start);
    assert_eq!(kind(&p, 2, 2), NodeType::Wall);
    assert_eq!(kind(&p, 1, 1), NodeType::Destination);
    assert_eq!(p.state(), PlaygroundState::Play);
}

#[test]
fn scenario_c_click_outside_the_grid_changes_nothing() {
    let mut p = Playground::new(3, 3).unwrap();
    for phase_step in 0..4 {
        let cells = p.grid().nodes().clone();
        let state = p.state();
        for (x, y) in [(3, 0), (0, 3), (7, 7), (u32::MAX, 1)] {
            assert_eq!(p.process_event(click(x, y)), Flow::Continue);
            assert_eq!(p.grid().nodes(), &cells);
            assert_eq!(p.state(), state);
        }
        match phase_step {
            0 => p.process_event(click(0, 0)),
            1 => p.process_event(click(1, 1)),
            2 => p.process_event(InputEvent::Enter),
            _ => Flow::Continue,
        };
    }
    assert_eq!(p.state(), PlaygroundState::Play);
}

#[test]
fn scenario_d_click_on_a_wall_while_selecting_start() {
    let mut g = Grid::new(3, 3).unwrap();
    g.set_node_type(1, 1, NodeType::Wall).unwrap();
    let mut p = Playground::from_grid(g).unwrap();
    assert_eq!(p.state(), PlaygroundState::SelectStartPoint);
    let cells = p.grid().nodes().clone();
    p.process_event(click(1, 1));
    assert_eq!(p.grid().nodes(), &cells);
    assert_eq!(kind(&p, 1, 1), NodeType::Wall);
    assert_eq!(p.state(), PlaygroundState::SelectStartPoint);
}

#[test]
fn confirm_in_play_changes_nothing() {
    let mut p = scenario_a_board();
    p.process_event(click(0, 1));
    let cells = p.grid().nodes().clone();
    assert_eq!(p.process_event(InputEvent::Enter), Flow::Continue);
    assert_eq!(p.process_event(InputEvent::Enter), Flow::Continue);
    assert_eq!(p.grid().nodes(), &cells);
    assert_eq!(p.state(), PlaygroundState::Play);
}

#[test]
fn confirm_before_walls_is_ignored() {
    let mut p = Playground::new(2, 2).unwrap();
    p.process_event(InputEvent::Enter);
    assert_eq!(p.state(), PlaygroundState::SelectStartPoint);
    p.process_event(click(0, 0));
    p.process_event(InputEvent::Enter);
    assert_eq!(p.state(), PlaygroundState::SelectDestination);
}

#[test]
fn destination_cannot_go_on_the_start() {
    let mut p = Playground::new(3, 3).unwrap();
    p.process_event(click(0, 0));
    p.process_event(click(0, 0));
    assert_eq!(kind(&p, 0, 0), NodeType::Start);
    assert_eq!(p.state(), PlaygroundState::SelectDestination);
}

#[test]
fn walls_can_be_placed_repeatedly() {
    let mut p2 = Playground::new(3, 3).unwrap();
    p2.process_event(click(0, 0));
    p2.process_event(click(2, 2));
    p2.process_event(click(1, 0));
    p2.process_event(click(1, 1));
    p2.process_event(click(1, 2));
    p2.process_event(click(0, 0));
    assert_eq!(kind(&p2, 1, 0), NodeType::Wall);
    assert_eq!(kind(&p2, 1, 1), NodeType::Wall);
    assert_eq!(kind(&p2, 1, 2), NodeType::Wall);
    assert_eq!(kind(&p2, 0, 0), NodeType::Start);
    assert_eq!(p2.state(), PlaygroundState::BuildWall);
}

#[test]
fn play_can_mark_the_destination_visited() {
    let mut p = scenario_a_board();
    p.process_event(click(1, 0));
    assert_eq!(kind(&p, 1, 1), NodeType::Visited);
    assert_eq!(kind(&p, 0, 0), NodeType::Start);
    assert_eq!(kind(&p, 2, 2), NodeType::Wall);
    assert_eq!(kind(&p, 0, 1), NodeType::Visited);
    assert_eq!(kind(&p, 1, 2), NodeType::Empty);
}

#[test]
fn quit_ends_the_loop_and_changes_nothing() {
    let mut p = Playground::new(3, 3).unwrap();
    p.process_event(click(1, 1));
    let cells = p.grid().nodes().clone();
    assert_eq!(p.process_event(InputEvent::Quit), Flow::Quit);
    assert_eq!(p.grid().nodes(), &cells);
    assert_eq!(p.state(), PlaygroundState::SelectDestination);
}

#[test]
fn new_playground_rejects_bad_dimensions() {
    assert!(Playground::new(0, 1).is_err());
    assert!(Playground::new(70000, 70000).is_err());
    assert_eq!(Playground::new(200000000, 1).err(), Some(GridError::InvalidDimensions));
    assert_eq!(Playground::new(1, 143165577).err(), Some(GridError::InvalidDimensions));
}

#[test]
fn from_grid_rejects_a_grid_with_roles() {
    let mut g = Grid::new(2, 2).unwrap();
    g.set_node_type(1, 0, NodeType::Destination).unwrap();
    assert!(Playground::from_grid(g).is_none());
    let mut g = Grid::new(2, 2).unwrap();
    g.set_node_type(0, 1, NodeType::Start).unwrap();
    assert!(Playground::from_grid(g).is_none());
}

#[test]
fn click_at_pixel_maps_to_the_cell_under_it() {
    assert_eq!(InputEvent::click_at_pixel(0, 0), Some(click(0, 0)));
    assert_eq!(InputEvent::click_at_pixel(29, 30), Some(click(0, 1)));
    assert_eq!(InputEvent::click_at_pixel(95, 61), Some(click(3, 2)));
    assert_eq!(InputEvent::click_at_pixel(-1, 10), None);
    assert_eq!(InputEvent::click_at_pixel(10, -30), None);
}
