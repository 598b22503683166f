use std::cell::RefCell;
use std::rc::Rc;

use tessera::constraint::{Constraint, DimensionValue};
use tessera::events::{
    left_pressed, CursorEvent, CursorEventContent, CursorState, EventQueue, PointerInput,
    PressKeyEventType, ScrollEventContent, StateHandler, StateHandlerInput,
};
use tessera::frame::DrawCommand;
use tessera::layout::{
    cross_start, linear_layout_size, padded_child_constraint, padded_child_dimension,
    resolve_dimension, spacing,
};
use tessera::px::{Px, PxPosition, PxSize};
use tessera::tree::{
    ComponentTree, ComputedData, CrossAxisAlignment, MainAxisAlignment, MeasurePolicy,
    MeasurementError,
};

struct Recorder {
    log: Rc<RefCell<Vec<(usize, usize, usize)>>>,
}

impl StateHandler<u32> for Recorder {
    fn handle(&self, node: usize, input: &StateHandlerInput<u32>) {
        self.log
            .borrow_mut()
            .push((node, input.cursor_events.len(), input.keyboard_events.len()));
    }
}

type Tree = ComponentTree<&'static str, Recorder>;

fn wrap() -> DimensionValue {
    DimensionValue::Wrap { min: None, max: None }
}

fn fill() -> DimensionValue {
    DimensionValue::Fill { min: None, max: None }
}

fn fixed(v: i32) -> DimensionValue {
    DimensionValue::Fixed(Px(v))
}

fn leaf(t: &mut Tree, w: i32, h: i32, name: &'static str) -> usize {
    let id = t.add_node(
        Constraint::new(fixed(w), fixed(h)),
        MeasurePolicy::Leaf { content: PxSize::new(Px(0), Px(0)) },
        Some(name),
        None,
    );
    t.pop_node();
    id
}

fn run(t: &mut Tree, w: i32, h: i32) -> Vec<DrawCommand<&'static str>> {
    t.compute(PxSize::new(Px(w), Px(h)), None, Vec::new(), Vec::new()).unwrap()
}

fn size(w: i32, h: i32) -> ComputedData {
    ComputedData { width: Px(w), height: Px(h) }
}

fn at(x: i32, y: i32) -> PxPosition {
    PxPosition::new(Px(x), Px(y))
}

fn row_of_three(t: &mut Tree, al: MainAxisAlignment) -> usize {
    let row = t.add_node(
        Constraint::new(fill(), wrap()),
        MeasurePolicy::Row { main_axis_alignment: al, cross_axis_alignment: CrossAxisAlignment::Start },
        None,
        None,
    );
    leaf(t, 40, 40, "a");
    leaf(t, 40, 40, "b");
    leaf(t, 40, 40, "c");
    t.pop_node();
    row
}

#[test]
fn merge_fixed_keeps_its_length() {
    for parent in [fixed(10), wrap(), fill(), DimensionValue::Wrap { min: None, max: Some(Px(5)) }] {
        assert_eq!(fixed(120).merge(&parent), fixed(120));
    }
    assert_eq!(fixed(-3).merge(&fixed(10)), fixed(0));
}

#[test]
fn merge_wrap_takes_tighter_bound() {
    let own = DimensionValue::Wrap { min: Some(Px(5)), max: Some(Px(300)) };
    assert_eq!(own.merge(&fixed(200)), DimensionValue::Wrap { min: Some(Px(5)), max: Some(Px(200)) });
    assert_eq!(
        own.merge(&DimensionValue::Fill { min: None, max: Some(Px(500)) }),
        DimensionValue::Wrap { min: Some(Px(5)), max: Some(Px(300)) }
    );
    assert_eq!(wrap().merge(&wrap()), wrap());
    assert_eq!(wrap().merge(&fixed(80)), DimensionValue::Wrap { min: None, max: Some(Px(80)) });
}

#[test]
fn merge_fill_under_fixed_is_fixed() {
    let own = DimensionValue::Fill { min: Some(Px(10)), max: Some(Px(50)) };
    assert_eq!(own.merge(&fixed(400)), fixed(400));
    assert_eq!(fill().merge(&fixed(-7)), fixed(0));
}

#[test]
fn merge_fill_without_bound_wraps() {
    let own = DimensionValue::Fill { min: Some(Px(10)), max: Some(Px(50)) };
    assert_eq!(own.merge(&wrap()), DimensionValue::Wrap { min: Some(Px(10)), max: Some(Px(50)) });
    assert_eq!(
        own.merge(&DimensionValue::Fill { min: None, max: Some(Px(30)) }),
        DimensionValue::Fill { min: Some(Px(10)), max: Some(Px(30)) }
    );
    let c = Constraint::new(fill(), fixed(9)).merge(&Constraint::new(fixed(100), wrap()));
    assert_eq!(c, Constraint::new(fixed(100), fixed(9)));
}

#[test]
fn padded_child_constraint_floors_at_zero() {
    assert_eq!(padded_child_dimension(fixed(400), Px(10)), fixed(380));
    assert_eq!(padded_child_dimension(fixed(15), Px(10)), fixed(0));
    assert_eq!(
        padded_child_dimension(DimensionValue::Wrap { min: Some(Px(4)), max: Some(Px(100)) }, Px(5)),
        DimensionValue::Wrap { min: Some(Px(0)), max: Some(Px(90)) }
    );
    assert_eq!(
        padded_child_dimension(DimensionValue::Fill { min: None, max: Some(Px(60)) }, Px(5)),
        fixed(50)
    );
    assert_eq!(padded_child_dimension(fill(), Px(5)), wrap());
}

#[test]
fn resolve_dimension_rules() {
    assert_eq!(resolve_dimension(fixed(30), Px(500)), Px(30));
    assert_eq!(resolve_dimension(DimensionValue::Wrap { min: Some(Px(50)), max: None }, Px(20)), Px(50));
    assert_eq!(resolve_dimension(DimensionValue::Wrap { min: None, max: Some(Px(10)) }, Px(20)), Px(10));
    assert_eq!(resolve_dimension(DimensionValue::Fill { min: None, max: Some(Px(70)) }, Px(20)), Px(70));
    assert_eq!(resolve_dimension(fill(), Px(20)), Px(20));
    assert_eq!(resolve_dimension(wrap(), Px(-4)), Px(0));
}

#[test]
fn spacing_and_cross_offsets() {
    assert_eq!(spacing(MainAxisAlignment::SpaceEvenly, 280, 3), (70, 70));
    assert_eq!(spacing(MainAxisAlignment::SpaceBetween, 280, 3), (0, 140));
    assert_eq!(spacing(MainAxisAlignment::SpaceAround, 300, 3), (50, 100));
    assert_eq!(spacing(MainAxisAlignment::Center, 281, 3), (140, 0));
    assert_eq!(spacing(MainAxisAlignment::End, 281, 3), (281, 0));
    assert_eq!(spacing(MainAxisAlignment::SpaceBetween, 280, 1), (0, 0));
    assert_eq!(cross_start(CrossAxisAlignment::Center, 100, 40), 30);
    assert_eq!(cross_start(CrossAxisAlignment::End, 100, 40), 60);
    assert_eq!(cross_start(CrossAxisAlignment::End, 30, 40), 0);
    let s = linear_layout_size(&Constraint::new(wrap(), wrap()), &vec![size(10, 5), size(20, 8)], true);
    assert_eq!(s, size(30, 8));
    let s = linear_layout_size(&Constraint::new(wrap(), wrap()), &vec![size(10, 5), size(20, 8)], false);
    assert_eq!(s, size(20, 13));
}

#[test]
fn padded_surface_scenario() {
    let mut t: Tree = ComponentTree::new();
    let surface = t.add_node(
        Constraint::new(fixed(400), fixed(70)),
        MeasurePolicy::Surface { padding: Px(10) },
        Some("surface"),
        None,
    );
    let inner = t.add_node(
        Constraint::new(wrap(), wrap()),
        MeasurePolicy::Leaf { content: PxSize::new(Px(500), Px(20)) },
        Some("text"),
        None,
    );
    t.pop_node();
    t.pop_node();
    let eff = Constraint::new(fixed(400), fixed(70));
    let offered = padded_child_constraint(&eff, Px(10));
    assert_eq!(offered, Constraint::new(fixed(380), fixed(50)));
    let child_eff = Constraint::new(wrap(), wrap()).merge(&offered);
    assert_eq!(
        child_eff,
        Constraint::new(
            DimensionValue::Wrap { min: None, max: Some(Px(380)) },
            DimensionValue::Wrap { min: None, max: Some(Px(50)) }
        )
    );

    let screen = Constraint::new(fixed(800), fixed(600));
    assert_eq!(t.measure_node(surface, &screen), Ok(size(400, 70)));
    assert_eq!(t.metadatas[inner].computed_data, Some(size(380, 20)));
    assert_eq!(t.metadatas[inner].rel_position, Some(at(10, 10)));

    let cmds = run(&mut t, 800, 600);
    assert_eq!(cmds.len(), 2);
    assert_eq!(cmds[0], DrawCommand { position: at(0, 0), size: size(400, 70), drawable: "surface" });
    assert_eq!(cmds[1], DrawCommand { position: at(10, 10), size: size(380, 20), drawable: "text" });
}

#[test]
fn surface_wraps_child_plus_padding() {
    let mut t: Tree = ComponentTree::new();
    t.add_node(Constraint::new(wrap(), wrap()), MeasurePolicy::Surface { padding: Px(8) }, Some("s"), None);
    leaf(&mut t, 40, 30, "inner");
    leaf(&mut t, 10, 10, "ignored");
    t.pop_node();
    let cmds = run(&mut t, 500, 500);
    assert_eq!(cmds.len(), 2);
    assert_eq!(cmds[0].size, size(56, 46));
    assert_eq!(cmds[1].position, at(8, 8));
    assert_eq!(cmds[1].drawable, "inner");
}

#[test]
fn surface_fill_takes_parent_length() {
    let mut t: Tree = ComponentTree::new();
    t.add_node(Constraint::new(fill(), wrap()), MeasurePolicy::Surface { padding: Px(20) }, Some("s"), None);
    let c = t.add_node(Constraint::new(fill(), wrap()), MeasurePolicy::Leaf { content: PxSize::new(Px(5), Px(12)) }, Some("c"), None);
    t.pop_node();
    t.pop_node();
    let cmds = run(&mut t, 300, 200);
    assert_eq!(cmds[0].size, size(300, 52));
    assert_eq!(cmds[1].size, size(260, 12));
    assert_eq!(t.metadatas[c].rel_position, Some(at(20, 20)));
}

#[test]
fn row_space_evenly_scenario() {
    let mut t: Tree = ComponentTree::new();
    row_of_three(&mut t, MainAxisAlignment::SpaceEvenly);
    let cmds = run(&mut t, 400, 100);
    let xs: Vec<i32> = cmds.iter().map(|c| c.position.x.0).collect();
    assert_eq!(xs, vec![70, 180, 290]);
    assert!(cmds.iter().all(|c| c.position.y == Px(0) && c.size == size(40, 40)));
    let first_gap = xs[0];
    let gaps = [first_gap, xs[1] - xs[0] - 40, xs[2] - xs[1] - 40, 400 - xs[2] - 40];
    assert!(gaps.iter().all(|g| *g == 70));
    assert_eq!(gaps.iter().sum::<i32>() + 120, 400);
}

#[test]
fn row_other_alignments() {
    let mut t: Tree = ComponentTree::new();
    row_of_three(&mut t, MainAxisAlignment::SpaceBetween);
    let xs: Vec<i32> = run(&mut t, 400, 100).iter().map(|c| c.position.x.0).collect();
    assert_eq!(xs, vec![0, 180, 360]);

    let mut t: Tree = ComponentTree::new();
    row_of_three(&mut t, MainAxisAlignment::End);
    let xs: Vec<i32> = run(&mut t, 400, 100).iter().map(|c| c.position.x.0).collect();
    assert_eq!(xs, vec![280, 320, 360]);

    let mut t: Tree = ComponentTree::new();
    row_of_three(&mut t, MainAxisAlignment::Center);
    let xs: Vec<i32> = run(&mut t, 400, 100).iter().map(|c| c.position.x.0).collect();
    assert_eq!(xs, vec![140, 180, 220]);
}

#[test]
fn column_centers_across() {
    let mut t: Tree = ComponentTree::new();
    t.add_node(
        Constraint::new(fixed(100), wrap()),
        MeasurePolicy::Column {
            main_axis_alignment: MainAxisAlignment::Start,
            cross_axis_alignment: CrossAxisAlignment::Center,
        },
        Some("col"),
        None,
    );
    leaf(&mut t, 40, 10, "a");
    leaf(&mut t, 60, 20, "b");
    t.pop_node();
    let cmds = run(&mut t, 500, 500);
    assert_eq!(cmds[0].size, size(100, 30));
    assert_eq!(cmds[1].position, at(30, 0));
    assert_eq!(cmds[2].position, at(20, 10));
}

#[test]
fn nested_positions_are_absolute() {
    let mut t: Tree = ComponentTree::new();
    t.add_node(Constraint::new(wrap(), wrap()), MeasurePolicy::Surface { padding: Px(5) }, Some("outer"), None);
    t.add_node(Constraint::new(wrap(), wrap()), MeasurePolicy::Surface { padding: Px(7) }, Some("inner"), None);
    leaf(&mut t, 10, 10, "dot");
    t.pop_node();
    t.pop_node();
    let cmds = run(&mut t, 100, 100);
    let drawn: Vec<(&str, PxPosition)> = cmds.iter().map(|c| (c.drawable, c.position)).collect();
    assert_eq!(drawn, vec![("outer", at(0, 0)), ("inner", at(5, 5)), ("dot", at(12, 12))]);
}

#[test]
fn leaf_children_are_not_drawn() {
    let mut t: Tree = ComponentTree::new();
    t.add_node(Constraint::new(wrap(), wrap()), MeasurePolicy::Leaf { content: PxSize::new(Px(3), Px(4)) }, Some("leaf"), None);
    leaf(&mut t, 10, 10, "hidden");
    t.pop_node();
    let cmds = run(&mut t, 100, 100);
    assert_eq!(cmds.len(), 1);
    assert_eq!(cmds[0].size, size(3, 4));
    assert_eq!(t.metadatas[1].rel_position, None);
}

#[test]
fn compute_is_reproducible() {
    let build = || {
        let mut t: Tree = ComponentTree::new();
        row_of_three(&mut t, MainAxisAlignment::SpaceEvenly);
        t
    };
    let mut a = build();
    let mut b = build();
    b.measure_node(0, &Constraint::new(fixed(10), fixed(10))).unwrap();
    assert_eq!(run(&mut a, 400, 100), run(&mut b, 400, 100));
}

#[test]
fn placing_a_stranger_fails() {
    let mut t: Tree = ComponentTree::new();
    let row = row_of_three(&mut t, MainAxisAlignment::Start);
    let other = leaf(&mut t, 1, 1, "other");
    assert!(matches!(t.place_node(row, other, at(1, 1)), Err(MeasurementError::MeasureFnFailed(_))));
    assert!(matches!(t.place_node(row, row, at(1, 1)), Err(MeasurementError::MeasureFnFailed(_))));
    assert!(matches!(t.place_node(99, 1, at(1, 1)), Err(MeasurementError::MeasureFnFailed(_))));
    assert_eq!(t.metadatas[other].rel_position, None);
    assert_eq!(t.place_node(row, 2, at(4, 5)), Ok(()));
    assert_eq!(t.metadatas[2].rel_position, Some(at(4, 5)));
}

#[test]
fn measuring_a_missing_node_fails() {
    let mut t: Tree = ComponentTree::new();
    leaf(&mut t, 1, 1, "x");
    assert!(matches!(
        t.measure_node(5, &Constraint::new(wrap(), wrap())),
        Err(MeasurementError::MeasureFnFailed(_))
    ));
    assert_eq!(t.measure_node(0, &Constraint::new(wrap(), wrap())), Ok(size(1, 1)));
}

#[test]
fn empty_tree_draws_nothing_and_clear_empties() {
    let mut t: Tree = ComponentTree::new();
    assert!(run(&mut t, 10, 10).is_empty());
    row_of_three(&mut t, MainAxisAlignment::Start);
    assert_eq!(t.len(), 4);
    assert_eq!(t.nodes[0].children, vec![1, 2, 3]);
    assert_eq!(t.nodes[2].parent, Some(0));
    t.clear();
    assert_eq!(t.len(), 0);
}

#[test]
fn handlers_see_the_whole_frame_input() {
    let log = Rc::new(RefCell::new(Vec::new()));
    let mut t: Tree = ComponentTree::new();
    t.add_node(Constraint::new(wrap(), wrap()), MeasurePolicy::Surface { padding: Px(0) }, None, Some(Recorder { log: log.clone() }));
    leaf(&mut t, 5, 5, "no handler");
    t.add_node(Constraint::new(wrap(), wrap()), MeasurePolicy::Leaf { content: PxSize::new(Px(1), Px(1)) }, None, Some(Recorder { log: log.clone() }));
    t.pop_node();
    t.pop_node();
    let events = vec![
        CursorEvent { timestamp: 1, content: CursorEventContent::Pressed(PressKeyEventType::Left) },
        CursorEvent { timestamp: 2, content: CursorEventContent::Released(PressKeyEventType::Left) },
    ];
    t.compute(PxSize::new(Px(50), Px(50)), Some(at(3, 3)), events, vec![7u32]).unwrap();
    assert_eq!(*log.borrow(), vec![(0, 2, 1), (2, 2, 1)]);
    let input = StateHandlerInput { cursor_position: None, cursor_events: Vec::new(), keyboard_events: Vec::<u32>::new() };
    assert_eq!(t.dispatch(&input), vec![0, 2]);
}

#[test]
fn drained_events_do_not_reappear() {
    let mut q: EventQueue<u32> = EventQueue::new();
    q.push_event(1);
    q.push_event(2);
    assert_eq!(q.take_events(), vec![1, 2]);
    assert_eq!(q.len(), 0);
    q.push_event(3);
    assert_eq!(q.take_events(), vec![3]);
    assert!(q.take_events().is_empty());
}

#[test]
fn cursor_state_tracks_position_and_events() {
    let mut c = CursorState::new();
    assert_eq!(c.position(), None);
    c.update_position(Some(at(4, 5)));
    c.push_event(CursorEvent { timestamp: 9, content: CursorEventContent::Moved(at(4, 5)) });
    assert_eq!(c.position(), Some(at(4, 5)));
    let taken = c.take_events();
    assert_eq!(taken.len(), 1);
    assert_eq!(taken[0].timestamp, 9);
    assert!(c.take_events().is_empty());
    c.clear();
    assert_eq!(c.position(), None);
}

fn toggle(progress: u32) -> Vec<DrawCommand<&'static str>> {
    let mut t: Tree = ComponentTree::new();
    t.add_node(
        Constraint::new(wrap(), wrap()),
        MeasurePolicy::Toggle { width: Px(52), height: Px(32), thumb_padding: Px(3), progress_permille: progress },
        Some("track"),
        None,
    );
    leaf(&mut t, 26, 26, "thumb");
    leaf(&mut t, 5, 5, "extra");
    t.pop_node();
    run(&mut t, 500, 500)
}

#[test]
fn toggle_thumb_slides_with_progress() {
    let off = toggle(0);
    assert_eq!(off.len(), 2);
    assert_eq!(off[0].size, size(52, 32));
    assert_eq!(off[1].position, at(3, 3));
    assert_eq!(toggle(1000)[1].position, at(23, 3));
    assert_eq!(toggle(500)[1].position, at(13, 3));
    assert_eq!(toggle(4000)[1].position, at(23, 3));
}

#[test]
fn pointer_input_updates_cursor_state() {
    let mut c = CursorState::new();
    c.apply(PointerInput::CursorMoved(at(5, 6)), 1);
    assert_eq!(c.position(), Some(at(5, 6)));
    c.apply(PointerInput::Button { pressed: true, button: PressKeyEventType::Right }, 2);
    c.apply(PointerInput::Wheel(ScrollEventContent { delta_x: Px(0), delta_y: Px(-3) }), 3);
    c.apply(PointerInput::CursorLeft, 4);
    assert_eq!(c.position(), None);
    c.apply(PointerInput::TouchStarted(at(9, 9)), 5);
    assert_eq!(c.position(), Some(at(9, 9)));
    c.apply(PointerInput::TouchMoved(at(10, 9)), 6);
    c.apply(PointerInput::TouchEnded, 7);
    assert_eq!(c.position(), None);
    let contents: Vec<CursorEventContent> = c.take_events().iter().map(|e| e.content).collect();
    assert_eq!(
        contents,
        vec![
            CursorEventContent::Pressed(PressKeyEventType::Right),
            CursorEventContent::Scrolled(ScrollEventContent { delta_x: Px(0), delta_y: Px(-3) }),
            CursorEventContent::Pressed(PressKeyEventType::Left),
            CursorEventContent::Released(PressKeyEventType::Left),
        ]
    );
}

#[test]
fn left_press_detection() {
    let ev = |content| CursorEvent { timestamp: 0, content };
    assert!(!left_pressed(&Vec::new()));
    assert!(!left_pressed(&vec![
        ev(CursorEventContent::Pressed(PressKeyEventType::Right)),
        ev(CursorEventContent::Released(PressKeyEventType::Left)),
    ]));
    assert!(left_pressed(&vec![
        ev(CursorEventContent::Left),
        ev(CursorEventContent::Pressed(PressKeyEventType::Left)),
    ]));
}

fn bare_toggle(t: &mut Tree) -> usize {
    let id = t.add_node(
        Constraint::new(wrap(), wrap()),
        MeasurePolicy::Toggle { width: Px(52), height: Px(32), thumb_padding: Px(3), progress_permille: 0 },
        Some("track"),
        None,
    );
    t.pop_node();
    id
}

#[test]
fn toggle_without_thumb_fails() {
    let mut t: Tree = ComponentTree::new();
    let toggle = bare_toggle(&mut t);
    let result = t.compute(PxSize::new(Px(100), Px(100)), None, Vec::new(), Vec::new());
    assert!(matches!(result, Err(MeasurementError::MeasureFnFailed(_))));
    assert!(matches!(
        t.measure_node(toggle, &Constraint::new(wrap(), wrap())),
        Err(MeasurementError::MeasureFnFailed(_))
    ));
}

#[test]
fn child_failure_names_the_child() {
    let mut t: Tree = ComponentTree::new();
    t.add_node(Constraint::new(wrap(), wrap()), MeasurePolicy::Surface { padding: Px(4) }, Some("s"), None);
    let toggle = bare_toggle(&mut t);
    t.pop_node();
    let result = t.compute(PxSize::new(Px(100), Px(100)), None, Vec::new(), Vec::new());
    assert_eq!(result, Err(MeasurementError::ChildMeasurementFailed(toggle)));

    let mut t: Tree = ComponentTree::new();
    t.add_node(
        Constraint::new(wrap(), wrap()),
        MeasurePolicy::Row {
            main_axis_alignment: MainAxisAlignment::Start,
            cross_axis_alignment: CrossAxisAlignment::Start,
        },
        None,
        None,
    );
    leaf(&mut t, 10, 10, "fine");
    t.add_node(Constraint::new(wrap(), wrap()), MeasurePolicy::Surface { padding: Px(0) }, None, None);
    bare_toggle(&mut t);
    t.pop_node();
    t.pop_node();
    let result = t.compute(PxSize::new(Px(100), Px(100)), None, Vec::new(), Vec::new());
    assert_eq!(result, Err(MeasurementError::ChildMeasurementFailed(2)));
}
