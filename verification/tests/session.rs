use oculante::bbox::{AnnoationBoundingBox, BoundingBoxPart, DEFAULT_CATCH_RADIUS};
use oculante::edit::{BoundingBoxEditMode, BoundingBoxElement, CursorShape};
use oculante::geometry::{Offset, Point};

const RADIUS: u32 = DEFAULT_CATCH_RADIUS;

fn pt(x: i32, y: i32) -> Point {
    Point { x, y }
}

struct Engine {
    mode: BoundingBoxEditMode,
    boxes: Vec<AnnoationBoundingBox>,
    selected: Option<usize>,
}

impl Engine {
    fn with(boxes: Vec<AnnoationBoundingBox>) -> Engine {
        Engine { mode: BoundingBoxEditMode::Idle, boxes, selected: None }
    }

    fn down(&mut self, p: Point, class: u32) {
        self.mode.mouse_button_down(p, &mut self.boxes, &mut self.selected, class, RADIUS);
    }

    fn moved(&mut self, p: Point) {
        self.mode.update(p, &mut self.boxes);
    }

    fn up(&mut self, p: Point) {
        self.mode.mouse_button_up(p, &mut self.boxes);
    }

    fn extents(&self, id: usize) -> (i32, i32, i32, i32) {
        let b = self.boxes[id];
        (b.x_min(), b.y_min(), b.x_max(), b.y_max())
    }
}

fn reference_box() -> AnnoationBoundingBox {
    AnnoationBoundingBox::from_center(50, 50, 20, 20, 0)
}

#[test]
fn corner_drag_fixed_point() {
    let mut e = Engine::with(vec![reference_box()]);
    e.down(pt(38, 38), 0);
    assert_eq!(
        e.mode,
        BoundingBoxEditMode::DragCorner {
            id: 0,
            part: BoundingBoxPart::CornerUpperLeft,
            static_opposite_point: pt(60, 60),
        }
    );
    assert_eq!(e.selected, None);
    e.moved(pt(0, 0));
    assert_eq!(e.boxes[0].center(), pt(30, 30));
    assert_eq!(e.boxes[0].size(), (60, 60));
    e.up(pt(0, 0));
    assert_eq!(e.mode, BoundingBoxEditMode::Idle);
    assert_eq!(e.boxes[0].center(), pt(30, 30));
    assert_eq!(e.boxes[0].size(), (60, 60));
    assert_eq!(e.boxes.len(), 1);
}

#[test]
fn every_corner_is_dragged_against_its_opposite() {
    let presses = [
        (pt(38, 38), BoundingBoxPart::CornerUpperLeft, pt(60, 60)),
        (pt(62, 38), BoundingBoxPart::CornerUpperRight, pt(40, 60)),
        (pt(62, 62), BoundingBoxPart::CornerLowerRight, pt(40, 40)),
        (pt(38, 62), BoundingBoxPart::CornerLowerLeft, pt(60, 40)),
    ];
    for (press, part, opposite) in presses {
        let mut e = Engine::with(vec![reference_box()]);
        e.down(press, 0);
        assert_eq!(
            e.mode,
            BoundingBoxEditMode::DragCorner { id: 0, part, static_opposite_point: opposite }
        );
        e.moved(pt(100, 7));
        assert_eq!(e.boxes[0].x_min(), opposite.x.min(100));
        assert_eq!(e.boxes[0].x_max(), opposite.x.max(100));
        assert_eq!(e.boxes[0].y_min(), 7);
        assert_eq!(e.boxes[0].y_max(), opposite.y);
    }
}

#[test]
fn edge_drag_independence() {
    let mut e = Engine::with(vec![AnnoationBoundingBox::from_center(50, 50, 20, 200, 0)]);
    e.down(pt(37, 50), 0);
    assert_eq!(e.mode, BoundingBoxEditMode::DragEdge { id: 0, part: BoundingBoxPart::EdgeLeft });
    e.moved(pt(10, 123));
    assert_eq!(e.boxes[0].width(), 50);
    assert_eq!(e.boxes[0].x_max(), 60);
    assert_eq!(e.boxes[0].center().x, 35);
    assert_eq!(e.boxes[0].height(), 200);
    assert_eq!(e.boxes[0].center().y, 50);
    e.up(pt(10, 123));
    assert_eq!(e.mode, BoundingBoxEditMode::Idle);
    assert_eq!(e.extents(0), (10, -50, 60, 150));
}

#[test]
fn every_edge_follows_the_pointer_on_its_axis() {
    let big = AnnoationBoundingBox::from_center(500, 500, 800, 800, 0);
    let cases = [
        (pt(95, 500), BoundingBoxPart::EdgeLeft, (7, 100, 900, 900)),
        (pt(905, 500), BoundingBoxPart::EdgeRight, (100, 100, 7, 900)),
        (pt(500, 95), BoundingBoxPart::EdgeTop, (100, 9, 900, 900)),
        (pt(500, 905), BoundingBoxPart::EdgeBottom, (100, 9, 900, 100)),
    ];
    for (press, part, _) in cases {
        let mut e = Engine::with(vec![big]);
        e.down(press, 0);
        assert_eq!(e.mode, BoundingBoxEditMode::DragEdge { id: 0, part });
        e.moved(pt(7, 9));
        let got = e.extents(0);
        let want = match part {
            BoundingBoxPart::EdgeLeft => (7, 100, 900, 900),
            BoundingBoxPart::EdgeRight => (7, 100, 100, 900),
            BoundingBoxPart::EdgeTop => (100, 9, 900, 900),
            _ => (100, 9, 900, 100),
        };
        assert_eq!(got, want);
    }
}

#[test]
fn zero_size_creation_is_discarded() {
    let mut e = Engine::with(vec![reference_box()]);
    e.down(pt(500, 500), 3);
    assert_eq!(e.boxes.len(), 2);
    assert_eq!(e.mode, BoundingBoxEditMode::New { id: 1, start_point: Some(pt(500, 500)) });
    assert!(!e.boxes[1].is_placed());
    assert_eq!(e.boxes[1].class_id(), 3);
    e.up(pt(500, 500));
    assert_eq!(e.boxes.len(), 1);
    assert_eq!(e.mode, BoundingBoxEditMode::Idle);
    assert_eq!(e.boxes[0].center(), pt(50, 50));
}

#[test]
fn zero_size_creation_is_discarded_after_a_move_on_the_spot() {
    let mut e = Engine::with(vec![]);
    e.down(pt(5, 5), 0);
    e.moved(pt(5, 5));
    assert!(e.boxes[0].is_placed());
    assert_eq!(e.boxes[0].size(), (0, 0));
    e.up(pt(5, 5));
    assert!(e.boxes.is_empty());
    assert_eq!(e.mode, BoundingBoxEditMode::Idle);
}

#[test]
fn a_box_without_width_or_without_height_is_discarded() {
    let mut e = Engine::with(vec![]);
    e.down(pt(5, 5), 0);
    e.moved(pt(5, 50));
    assert_eq!(e.boxes[0].size(), (0, 45));
    e.up(pt(5, 50));
    assert!(e.boxes.is_empty());
    e.down(pt(5, 5), 0);
    e.moved(pt(50, 5));
    assert_eq!(e.boxes[0].size(), (45, 0));
    e.up(pt(50, 5));
    assert!(e.boxes.is_empty());
}

#[test]
fn press_drag_release_creates_a_box() {
    let mut e = Engine::with(vec![]);
    e.down(pt(100, 100), 5);
    e.moved(pt(130, 90));
    assert_eq!(e.mode, BoundingBoxEditMode::New { id: 0, start_point: Some(pt(100, 100)) });
    e.moved(pt(160, 80));
    e.up(pt(160, 80));
    assert_eq!(e.mode, BoundingBoxEditMode::Idle);
    assert_eq!(e.boxes.len(), 1);
    assert_eq!(e.extents(0), (100, 80, 160, 100));
    assert_eq!(e.boxes[0].class_id(), 5);
    assert_eq!(e.selected, None);
}

#[test]
fn a_box_can_be_created_with_two_presses() {
    let mut e = Engine::with(vec![AnnoationBoundingBox::unplaced(4)]);
    e.mode = BoundingBoxEditMode::New { id: 0, start_point: None };
    e.selected = Some(0);
    e.moved(pt(1, 1));
    assert!(!e.boxes[0].is_placed());
    e.down(pt(10, 10), 9);
    assert_eq!(e.selected, None);
    assert_eq!(e.mode, BoundingBoxEditMode::New { id: 0, start_point: Some(pt(10, 10)) });
    assert!(!e.boxes[0].is_placed());
    e.down(pt(30, 50), 9);
    assert_eq!(e.mode, BoundingBoxEditMode::New { id: 0, start_point: Some(pt(10, 10)) });
    assert_eq!(e.extents(0), (10, 10, 30, 50));
    assert_eq!(e.boxes[0].class_id(), 4);
    assert_eq!(e.boxes.len(), 1);
}

#[test]
fn a_press_inside_moves_and_selects_the_box() {
    let mut e = Engine::with(vec![reference_box()]);
    e.down(pt(55, 48), 0);
    assert_eq!(e.mode, BoundingBoxEditMode::DragFullBox { id: 0, offset: Offset { x: 5, y: -2 } });
    assert_eq!(e.selected, Some(0));
    e.moved(pt(155, 48));
    assert_eq!(e.boxes[0].center(), pt(150, 50));
    assert_eq!(e.boxes[0].size(), (20, 20));
    e.moved(pt(5, -2));
    assert_eq!(e.boxes[0].center(), pt(0, 0));
    e.up(pt(5, -2));
    assert_eq!(e.mode, BoundingBoxEditMode::Idle);
    assert_eq!(e.selected, Some(0));
    assert_eq!(e.extents(0), (-10, -10, 10, 10));
}

#[test]
fn a_move_off_the_grid_is_not_made() {
    let mut e = Engine::with(vec![reference_box()]);
    e.down(pt(50, 50), 0);
    e.moved(pt(i32::MAX, 50));
    assert_eq!(e.boxes[0].center(), pt(50, 50));
    e.moved(pt(i32::MAX - 10, 50));
    assert_eq!(e.boxes[0].center(), pt(i32::MAX - 10, 50));
    e.mode = BoundingBoxEditMode::DragFullBox { id: 0, offset: Offset { x: i64::MIN, y: i64::MAX } };
    e.moved(pt(0, 0));
    assert_eq!(e.boxes[0].center(), pt(i32::MAX - 10, 50));
    assert_eq!(e.boxes[0].size(), (20, 20));
}

#[test]
fn every_press_clears_the_selection() {
    let mut e = Engine::with(vec![reference_box()]);
    e.down(pt(50, 50), 0);
    assert_eq!(e.selected, Some(0));
    e.down(pt(50, 50), 0);
    assert_eq!(e.selected, None);
    assert_eq!(e.mode, BoundingBoxEditMode::DragFullBox { id: 0, offset: Offset { x: 0, y: 0 } });
    e.up(pt(50, 50));
    e.down(pt(38, 38), 0);
    assert_eq!(e.selected, None);
}

#[test]
fn a_press_during_a_drag_does_nothing() {
    let modes = [
        BoundingBoxEditMode::DragCorner {
            id: 0,
            part: BoundingBoxPart::CornerUpperLeft,
            static_opposite_point: pt(60, 60),
        },
        BoundingBoxEditMode::DragEdge { id: 0, part: BoundingBoxPart::EdgeTop },
        BoundingBoxEditMode::DragFullBox { id: 0, offset: Offset { x: 1, y: 1 } },
    ];
    for mode in modes {
        let mut e = Engine::with(vec![reference_box()]);
        e.mode = mode;
        e.down(pt(500, 500), 1);
        assert_eq!(e.mode, mode);
        assert_eq!(e.boxes.len(), 1);
        assert_eq!(e.extents(0), (40, 40, 60, 60));
    }
}

#[test]
fn idle_engine_ignores_move_and_release() {
    let mut e = Engine::with(vec![reference_box()]);
    e.moved(pt(50, 50));
    e.up(pt(50, 50));
    assert_eq!(e.mode, BoundingBoxEditMode::Idle);
    assert_eq!(e.extents(0), (40, 40, 60, 60));
}

#[test]
fn a_drag_of_no_edge_changes_nothing() {
    let mut e = Engine::with(vec![reference_box()]);
    e.mode = BoundingBoxEditMode::DragEdge { id: 0, part: BoundingBoxPart::CentralArea };
    e.moved(pt(0, 0));
    assert_eq!(e.extents(0), (40, 40, 60, 60));
    assert_eq!(
        e.mode,
        BoundingBoxEditMode::DragEdge { id: 0, part: BoundingBoxPart::CentralArea }
    );
}

#[test]
fn a_mode_that_lost_its_box_ends() {
    let lost = [
        BoundingBoxEditMode::New { id: 1, start_point: Some(pt(0, 0)) },
        BoundingBoxEditMode::New { id: 1, start_point: None },
        BoundingBoxEditMode::DragCorner {
            id: 7,
            part: BoundingBoxPart::CornerUpperLeft,
            static_opposite_point: pt(60, 60),
        },
        BoundingBoxEditMode::DragEdge { id: 1, part: BoundingBoxPart::EdgeTop },
        BoundingBoxEditMode::DragFullBox { id: usize::MAX, offset: Offset { x: 1, y: 1 } },
    ];
    for mode in lost {
        let mut e = Engine::with(vec![reference_box()]);
        e.mode = mode;
        e.moved(pt(3, 3));
        assert_eq!(e.mode, BoundingBoxEditMode::Idle);
        assert_eq!(e.extents(0), (40, 40, 60, 60));
        e.mode = mode;
        e.up(pt(3, 3));
        assert_eq!(e.mode, BoundingBoxEditMode::Idle);
        assert_eq!(e.boxes.len(), 1);
    }
    let mut e = Engine::with(vec![reference_box()]);
    e.mode = BoundingBoxEditMode::New { id: 1, start_point: Some(pt(0, 0)) };
    e.down(pt(3, 3), 0);
    assert_eq!(e.mode, BoundingBoxEditMode::Idle);
    assert_eq!(e.boxes.len(), 1);
    assert_eq!(e.extents(0), (40, 40, 60, 60));
}

#[test]
fn overlap_order() {
    let lower = AnnoationBoundingBox::from_center(50, 50, 100, 100, 0);
    let upper = AnnoationBoundingBox::from_center(50, 50, 20, 20, 1);
    let boxes = vec![lower, upper];
    let mode = BoundingBoxEditMode::Idle;
    // Inside both: the first box answers, with its own classification.
    assert_eq!(
        mode.get_part_element(pt(50, 50), &boxes, RADIUS),
        Some(BoundingBoxElement { id: 0, part: BoundingBoxPart::CentralArea })
    );
    // On the corner of the second box, which lies inside the first.
    assert_eq!(
        mode.get_part_element(pt(40, 40), &boxes, RADIUS),
        Some(BoundingBoxElement { id: 0, part: BoundingBoxPart::CentralArea })
    );
    let swapped = vec![upper, lower];
    assert_eq!(
        mode.get_part_element(pt(38, 38), &swapped, RADIUS),
        Some(BoundingBoxElement { id: 0, part: BoundingBoxPart::CornerUpperLeft })
    );
    assert_eq!(
        mode.get_part_element(pt(38, 38), &boxes, RADIUS),
        Some(BoundingBoxElement { id: 0, part: BoundingBoxPart::CentralArea })
    );
}

#[test]
fn the_first_box_that_claims_the_pointer_is_hit() {
    let far = AnnoationBoundingBox::from_center(1000, 1000, 10, 10, 0);
    let near = AnnoationBoundingBox::from_center(50, 50, 20, 20, 1);
    let boxes = vec![far, AnnoationBoundingBox::default(), near, near];
    let mode = BoundingBoxEditMode::DragEdge { id: 0, part: BoundingBoxPart::EdgeTop };
    assert_eq!(
        mode.get_part_element(pt(50, 50), &boxes, RADIUS),
        Some(BoundingBoxElement { id: 2, part: BoundingBoxPart::CentralArea })
    );
    assert_eq!(mode.get_part_element(pt(500, 500), &boxes, RADIUS), None);
    assert_eq!(mode.get_part_element(pt(0, 0), &Vec::new(), RADIUS), None);
    assert_eq!(mode.get_part_element(pt(50, 19), &boxes, RADIUS), None);
    assert_eq!(
        mode.get_part_element(pt(50, 19), &boxes, 44),
        Some(BoundingBoxElement { id: 2, part: BoundingBoxPart::EdgeTop })
    );
}

#[test]
fn deleting_the_selected_box_ends_its_drag() {
    let mut e = Engine::with(vec![reference_box(), AnnoationBoundingBox::from_center(500, 500, 20, 20, 1)]);
    e.down(pt(500, 500), 0);
    assert_eq!(e.selected, Some(1));
    assert!(e.mode.delete_selected(&mut e.boxes, &mut e.selected));
    assert_eq!(e.selected, None);
    assert_eq!(e.mode, BoundingBoxEditMode::Idle);
    assert_eq!(e.boxes.len(), 1);
    assert_eq!(e.boxes[0].center(), pt(50, 50));
    e.moved(pt(0, 0));
    assert_eq!(e.boxes[0].center(), pt(50, 50));
    assert!(!e.mode.delete_selected(&mut e.boxes, &mut e.selected));
    assert_eq!(e.boxes.len(), 1);
}

#[test]
fn deleting_keeps_an_interaction_with_an_earlier_box() {
    let a = reference_box();
    let b = AnnoationBoundingBox::from_center(500, 500, 20, 20, 1);
    let drag = BoundingBoxEditMode::DragEdge { id: 0, part: BoundingBoxPart::EdgeTop };
    let mut e = Engine::with(vec![a, b]);
    e.mode = drag;
    e.selected = Some(1);
    assert!(e.mode.delete_selected(&mut e.boxes, &mut e.selected));
    assert_eq!(e.mode, drag);
    assert_eq!(e.boxes.len(), 1);
    assert_eq!(e.boxes[0].center(), pt(50, 50));
    // An interaction with a box behind the deleted one ends.
    let mut e = Engine::with(vec![a, b]);
    e.mode = BoundingBoxEditMode::DragEdge { id: 1, part: BoundingBoxPart::EdgeTop };
    e.selected = Some(0);
    assert!(e.mode.delete_selected(&mut e.boxes, &mut e.selected));
    assert_eq!(e.mode, BoundingBoxEditMode::Idle);
    assert_eq!(e.boxes[0].center(), pt(500, 500));
    // A selection that names no box deletes nothing.
    let mut e = Engine::with(vec![a, b]);
    e.mode = drag;
    e.selected = Some(2);
    assert!(!e.mode.delete_selected(&mut e.boxes, &mut e.selected));
    assert_eq!(e.selected, None);
    assert_eq!(e.mode, drag);
    assert_eq!(e.boxes.len(), 2);
}

#[test]
fn the_pointer_shows_what_can_be_done() {
    let idle = BoundingBoxEditMode::Idle;
    let over = |part| Some(BoundingBoxElement { id: 0, part });
    assert_eq!(idle.cursor(None, true), CursorShape::Default);
    assert_eq!(idle.cursor(over(BoundingBoxPart::CentralArea), true), CursorShape::PointingHand);
    assert_eq!(idle.cursor(over(BoundingBoxPart::EdgeTop), true), CursorShape::ResizeVertical);
    assert_eq!(idle.cursor(over(BoundingBoxPart::EdgeBottom), true), CursorShape::ResizeVertical);
    assert_eq!(idle.cursor(over(BoundingBoxPart::EdgeLeft), true), CursorShape::ResizeHorizontal);
    assert_eq!(idle.cursor(over(BoundingBoxPart::EdgeRight), true), CursorShape::ResizeHorizontal);
    assert_eq!(idle.cursor(over(BoundingBoxPart::CornerUpperLeft), true), CursorShape::ResizeNwSe);
    assert_eq!(idle.cursor(over(BoundingBoxPart::CornerLowerRight), true), CursorShape::ResizeNwSe);
    assert_eq!(idle.cursor(over(BoundingBoxPart::CornerUpperRight), true), CursorShape::ResizeNeSw);
    assert_eq!(idle.cursor(over(BoundingBoxPart::CornerLowerLeft), true), CursorShape::ResizeNeSw);
    assert_eq!(idle.cursor(over(BoundingBoxPart::EdgeTop), false), CursorShape::Default);
    // A drag decides before the part under the pointer does.
    let moving = BoundingBoxEditMode::DragFullBox { id: 0, offset: Offset { x: 0, y: 0 } };
    assert_eq!(moving.cursor(over(BoundingBoxPart::EdgeTop), true), CursorShape::Move);
    assert_eq!(moving.cursor(None, true), CursorShape::Move);
    assert_eq!(moving.cursor(None, false), CursorShape::Default);
    let corner = BoundingBoxEditMode::DragCorner {
        id: 0,
        part: BoundingBoxPart::CornerUpperRight,
        static_opposite_point: pt(0, 0),
    };
    assert_eq!(corner.cursor(over(BoundingBoxPart::CentralArea), true), CursorShape::ResizeNeSw);
    let edge = BoundingBoxEditMode::DragEdge { id: 0, part: BoundingBoxPart::EdgeLeft };
    assert_eq!(edge.cursor(None, true), CursorShape::ResizeHorizontal);
    let odd = BoundingBoxEditMode::DragEdge { id: 0, part: BoundingBoxPart::CentralArea };
    assert_eq!(odd.cursor(over(BoundingBoxPart::EdgeTop), true), CursorShape::ResizeVertical);
    let drawing = BoundingBoxEditMode::New { id: 0, start_point: None };
    assert_eq!(drawing.cursor(over(BoundingBoxPart::EdgeTop), true), CursorShape::ResizeVertical);
}
