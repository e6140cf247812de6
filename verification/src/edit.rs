//! The edit session: what a pointer press, a pointer move and a pointer
//! release do to the collection of boxes and to the interaction mode.
//!
//! A box is known by its position in the collection. A mode that names a
//! position beyond the end of the collection has lost its box; the next move
//! or release ends such an interaction and touches no box.

use crate::bbox::{
    is_corner, is_edge, lemma_edge_drag, lemma_part_at, lemma_spanning, AnnoationBoundingBox,
    BoundingBoxPart, BoxView,
};
use crate::geometry::{max_of, min_of, on_axis, Offset, Point};
use vstd::prelude::*;

verus! {

/// A part of one box of a collection. `id` is the position of the box.
#[derive(Clone, Copy, Debug, PartialEq, Eq, Structural)]
pub struct BoundingBoxElement {
    pub id: usize,
    pub part: BoundingBoxPart,
}

/// The interaction in progress. In every variant but `Idle`, `id` is the
/// position of the box that is being edited.
#[derive(Clone, Copy, Debug, PartialEq, Eq)]
pub enum BoundingBoxEditMode {
    /// No interaction.
    Idle,
    /// A new box is being drawn from `start_point`.
    New { id: usize, start_point: Option<Point> },
    /// A corner follows the pointer; the opposite corner stays.
    DragCorner { id: usize, part: BoundingBoxPart, static_opposite_point: Point },
    /// An edge follows the pointer; the opposite edge stays.
    DragEdge { id: usize, part: BoundingBoxPart },
    /// The whole box follows the pointer, `offset` away from it.
    DragFullBox { id: usize, offset: Offset },
}

/// The state that the pointer events act on: the mode, the content of the
/// boxes in collection order, and the position of the selected box.
pub struct Session {
    pub mode: BoundingBoxEditMode,
    pub boxes: Seq<BoxView>,
    pub selected: Option<usize>,
}

/// The content of each box of a collection, in order.
pub open spec fn views(boxes: Seq<AnnoationBoundingBox>) -> Seq<BoxView> {
    boxes.map_values(|b: AnnoationBoundingBox| b@)
}

/// Whether box `id` has a part that the pointer at `p` takes hold of.
pub open spec fn claims(boxes: Seq<BoxView>, p: Point, radius: u32, id: int) -> bool {
    0 <= id < boxes.len() && boxes[id].part_at(p, radius) is Some
}

/// Whether box `id` is the first box in collection order that claims `p`.
pub open spec fn is_first_claim(boxes: Seq<BoxView>, p: Point, radius: u32, id: int) -> bool {
    &&& claims(boxes, p, radius, id)
    &&& forall|j: int| 0 <= j < id ==> !claims(boxes, p, radius, j)
}

/// The part under the pointer at `p`: that of the first box in collection
/// order that claims `p`, whatever lies after it.
pub open spec fn find_hit(boxes: Seq<BoxView>, p: Point, radius: u32) -> Option<
    BoundingBoxElement,
> {
    if exists|id: int| is_first_claim(boxes, p, radius, id) {
        let id = choose|id: int| is_first_claim(boxes, p, radius, id);
        Some(BoundingBoxElement { id: id as usize, part: boxes[id].part_at(p, radius).unwrap() })
    } else {
        None
    }
}

/// The corner of `view` that lies diagonally across from the corner `part`.
pub open spec fn opposite_corner(view: BoxView, part: BoundingBoxPart) -> Point {
    match part {
        BoundingBoxPart::CornerUpperLeft => Point { x: view.x_max() as i32, y: view.y_max() as i32 },
        BoundingBoxPart::CornerUpperRight => Point { x: view.x_min() as i32, y: view.y_max() as i32 },
        BoundingBoxPart::CornerLowerRight => Point { x: view.x_min() as i32, y: view.y_min() as i32 },
        _ => Point { x: view.x_max() as i32, y: view.y_min() as i32 },
    }
}

/// The mode that a press on `hit` starts, the pointer being at `cursor`.
pub open spec fn grab(view: BoxView, hit: BoundingBoxElement, cursor: Point) -> BoundingBoxEditMode {
    match hit.part {
        BoundingBoxPart::CentralArea => BoundingBoxEditMode::DragFullBox {
            id: hit.id,
            offset: Offset {
                x: (cursor.x - view.x_center) as i64,
                y: (cursor.y - view.y_center) as i64,
            },
        },
        BoundingBoxPart::CornerUpperLeft
        | BoundingBoxPart::CornerUpperRight
        | BoundingBoxPart::CornerLowerRight
        | BoundingBoxPart::CornerLowerLeft => BoundingBoxEditMode::DragCorner {
            id: hit.id,
            part: hit.part,
            static_opposite_point: opposite_corner(view, hit.part),
        },
        _ => BoundingBoxEditMode::DragEdge { id: hit.id, part: hit.part },
    }
}

/// The session after the pointer was pressed at `cursor`.
///
/// The selection is cleared. With no interaction in progress, a press on a
/// box starts to move it (and selects it), to drag a corner or to drag an
/// edge, and a press on no box appends an unplaced box of class `class_id`
/// and starts to draw it from `cursor`. While a box is being drawn, a press
/// fixes the start point if there is none yet, and spans the box from the
/// start point to `cursor` otherwise. A press during a drag does nothing.
pub open spec fn after_button_down(s: Session, cursor: Point, class_id: u32, radius: u32) -> Session {
    match s.mode {
        BoundingBoxEditMode::Idle => match find_hit(s.boxes, cursor, radius) {
            Some(hit) => Session {
                mode: grab(s.boxes[hit.id as int], hit, cursor),
                boxes: s.boxes,
                selected: if hit.part == BoundingBoxPart::CentralArea {
                    Some(hit.id)
                } else {
                    None
                },
            },
            None => Session {
                mode: BoundingBoxEditMode::New {
                    id: s.boxes.len() as usize,
                    start_point: Some(cursor),
                },
                boxes: s.boxes.push(BoxView::unplaced(class_id)),
                selected: None,
            },
        },
        BoundingBoxEditMode::New { id, start_point } => if id < s.boxes.len() {
            match start_point {
                None => Session {
                    mode: BoundingBoxEditMode::New { id, start_point: Some(cursor) },
                    boxes: s.boxes,
                    selected: None,
                },
                Some(start) => Session {
                    mode: s.mode,
                    boxes: s.boxes.update(
                        id as int,
                        BoxView::spanning(start, cursor, s.boxes[id as int].class_id),
                    ),
                    selected: None,
                },
            }
        } else {
            Session { mode: BoundingBoxEditMode::Idle, boxes: s.boxes, selected: None }
        },
        _ => Session { mode: s.mode, boxes: s.boxes, selected: None },
    }
}

/// The box `view` after the pointer has dragged its edge `part` to `cursor`.
/// A part that is no edge leaves the box as it is.
pub open spec fn edge_dragged(view: BoxView, part: BoundingBoxPart, cursor: Point) -> BoxView {
    match part {
        BoundingBoxPart::EdgeLeft => view.with_x_extent(view.x_max(), cursor.x as int),
        BoundingBoxPart::EdgeRight => view.with_x_extent(cursor.x as int, view.x_min()),
        BoundingBoxPart::EdgeTop => view.with_y_extent(view.y_max(), cursor.y as int),
        BoundingBoxPart::EdgeBottom => view.with_y_extent(cursor.y as int, view.y_min()),
        _ => view,
    }
}

/// The box `view` after the pointer has carried it to `cursor`, `offset` away
/// from its centre. A move that would take the box off the grid is not made.
pub open spec fn carried(view: BoxView, offset: Offset, cursor: Point) -> BoxView {
    let x = cursor.x - offset.x;
    let y = cursor.y - offset.y;
    if on_axis(x) && on_axis(y) && view.fits_at(x, y) {
        view.moved_to(x, y)
    } else {
        view
    }
}

/// The session after the pointer has moved to `cursor`. The mode stays,
/// unless it has lost its box; the selection stays; at most the box that is
/// being edited changes.
pub open spec fn after_update(s: Session, cursor: Point) -> Session {
    match s.mode {
        BoundingBoxEditMode::Idle => s,
        BoundingBoxEditMode::New { id, start_point } => if id < s.boxes.len() {
            match start_point {
                Some(start) => Session {
                    boxes: s.boxes.update(
                        id as int,
                        BoxView::spanning(start, cursor, s.boxes[id as int].class_id),
                    ),
                    ..s
                },
                None => s,
            }
        } else {
            Session { mode: BoundingBoxEditMode::Idle, ..s }
        },
        BoundingBoxEditMode::DragCorner { id, static_opposite_point, .. } => if id < s.boxes.len() {
            Session {
                boxes: s.boxes.update(
                    id as int,
                    BoxView::spanning(static_opposite_point, cursor, s.boxes[id as int].class_id),
                ),
                ..s
            }
        } else {
            Session { mode: BoundingBoxEditMode::Idle, ..s }
        },
        BoundingBoxEditMode::DragEdge { id, part } => if id < s.boxes.len() {
            Session { boxes: s.boxes.update(id as int, edge_dragged(s.boxes[id as int], part, cursor)), ..s }
        } else {
            Session { mode: BoundingBoxEditMode::Idle, ..s }
        },
        BoundingBoxEditMode::DragFullBox { id, offset } => if id < s.boxes.len() {
            Session { boxes: s.boxes.update(id as int, carried(s.boxes[id as int], offset, cursor)), ..s }
        } else {
            Session { mode: BoundingBoxEditMode::Idle, ..s }
        },
    }
}

/// The session after the pointer was released. The interaction ends. A box
/// that was being drawn and has no width or no height is taken out of the
/// collection again.
pub open spec fn after_button_up(s: Session) -> Session {
    match s.mode {
        BoundingBoxEditMode::New { id, .. } => if id < s.boxes.len() && (s.boxes[id as int].width == 0
            || s.boxes[id as int].height == 0) {
            Session { mode: BoundingBoxEditMode::Idle, boxes: s.boxes.remove(id as int), ..s }
        } else {
            Session { mode: BoundingBoxEditMode::Idle, ..s }
        },
        _ => Session { mode: BoundingBoxEditMode::Idle, ..s },
    }
}

/// The position that `mode` names, if it names one.
pub open spec fn target(mode: BoundingBoxEditMode) -> Option<usize> {
    match mode {
        BoundingBoxEditMode::Idle => None,
        BoundingBoxEditMode::New { id, .. } => Some(id),
        BoundingBoxEditMode::DragCorner { id, .. } => Some(id),
        BoundingBoxEditMode::DragEdge { id, .. } => Some(id),
        BoundingBoxEditMode::DragFullBox { id, .. } => Some(id),
    }
}

/// The session after the selected box was deleted. The selection is
/// cleared. An interaction with the deleted box, or with a box behind it,
/// whose position has changed, ends. A selection that names no box deletes
/// nothing.
pub open spec fn after_delete(s: Session) -> Session {
    match s.selected {
        Some(k) => if k < s.boxes.len() {
            Session {
                mode: if target(s.mode) matches Some(id) && id >= k {
                    BoundingBoxEditMode::Idle
                } else {
                    s.mode
                },
                boxes: s.boxes.remove(k as int),
                selected: None,
            }
        } else {
            Session { selected: None, ..s }
        },
        None => s,
    }
}


/// At most one box is the first to claim a pointer position.
pub proof fn lemma_first_claim_is_unique(boxes: Seq<BoxView>, p: Point, radius: u32, a: int, b: int)
    requires
        is_first_claim(boxes, p, radius, a),
        is_first_claim(boxes, p, radius, b),
    ensures
        a == b,
{
    if a < b {
        assert(!claims(boxes, p, radius, a));
    } else if b < a {
        assert(!claims(boxes, p, radius, b));
    }
}

/// Of boxes that overlap under the pointer the one that comes first in the
/// collection is hit, whatever lies on top of it: if box `id` claims `p`,
/// the hit is on a box at or before `id`, and on `id` itself where no box
/// before it claims `p`. The collection is one that a machine can hold.
pub proof fn lemma_lowest_index_wins(boxes: Seq<BoxView>, p: Point, radius: u32, id: int)
    requires
        boxes.len() <= usize::MAX,
        claims(boxes, p, radius, id),
    ensures
        find_hit(boxes, p, radius) matches Some(hit) && hit.id <= id && is_first_claim(
            boxes,
            p,
            radius,
            hit.id as int,
        ) && Some(hit.part) == boxes[hit.id as int].part_at(p, radius),
        (forall|j: int| 0 <= j < id ==> !claims(boxes, p, radius, j)) ==> find_hit(boxes, p, radius)
            == Some(BoundingBoxElement { id: id as usize, part: boxes[id].part_at(p, radius).unwrap() }),
    decreases id,
{
    if exists|j: int| 0 <= j < id && claims(boxes, p, radius, j) {
        let j = choose|j: int| 0 <= j < id && claims(boxes, p, radius, j);
        lemma_lowest_index_wins(boxes, p, radius, j);
    } else {
        assert(is_first_claim(boxes, p, radius, id));
        let chosen = choose|k: int| is_first_claim(boxes, p, radius, k);
        lemma_first_claim_is_unique(boxes, p, radius, id, chosen);
    }
}

impl BoundingBoxEditMode {
    /// The part under the pointer, for a press or for feedback while the
    /// pointer hovers: see [`find_hit`]. The mode plays no part in it.
    pub fn get_part_element(
        &self,
        cursor_position: Point,
        annoation_bboxes: &Vec<AnnoationBoundingBox>,
        catch_radius: u32,
    ) -> (res: Option<BoundingBoxElement>)
        ensures
            res == find_hit(views(annoation_bboxes@), cursor_position, catch_radius),
            match res {
                Some(hit) => is_first_claim(
                    views(annoation_bboxes@),
                    cursor_position,
                    catch_radius,
                    hit.id as int,
                ) && Some(hit.part) == annoation_bboxes@[hit.id as int]@.part_at(
                    cursor_position,
                    catch_radius,
                ),
                None => forall|j: int|
                    0 <= j < annoation_bboxes@.len() ==> (#[trigger] annoation_bboxes@[j])@.part_at(
                        cursor_position,
                        catch_radius,
                    ) is None,
            },
    {
        let ghost boxes = views(annoation_bboxes@);
        let mut id: usize = 0;
        while id < annoation_bboxes.len()
            invariant
                id <= annoation_bboxes.len(),
                boxes == views(annoation_bboxes@),
                forall|j: int| 0 <= j < id ==> !claims(boxes, cursor_position, catch_radius, j),
            decreases annoation_bboxes.len() - id,
        {
            if let Some(part) = annoation_bboxes[id].get_part(cursor_position, catch_radius) {
                proof {
                    assert(claims(boxes, cursor_position, catch_radius, id as int));
                    lemma_lowest_index_wins(boxes, cursor_position, catch_radius, id as int);
                }
                return Some(BoundingBoxElement { id, part });
            }
            id += 1;
        }
        proof {
            assert forall|j: int| 0 <= j < annoation_bboxes@.len() implies (
            #[trigger] annoation_bboxes@[j])@.part_at(cursor_position, catch_radius) is None by {
                assert(!claims(boxes, cursor_position, catch_radius, j));
            }
        }
        None
    }

    /// The pointer was pressed at `cursor_position`: see
    /// [`after_button_down`].
    pub fn mouse_button_down(
        &mut self,
        cursor_position: Point,
        annoation_bboxes: &mut Vec<AnnoationBoundingBox>,
        selected_bbox_id: &mut Option<usize>,
        label_class_id: u32,
        catch_radius: u32,
    )
        ensures
            *final(self) == after_button_down(
                session_of(*old(self), old(annoation_bboxes)@, *old(selected_bbox_id)),
                cursor_position,
                label_class_id,
                catch_radius,
            ).mode,
            views(final(annoation_bboxes)@) == after_button_down(
                session_of(*old(self), old(annoation_bboxes)@, *old(selected_bbox_id)),
                cursor_position,
                label_class_id,
                catch_radius,
            ).boxes,
            *final(selected_bbox_id) == after_button_down(
                session_of(*old(self), old(annoation_bboxes)@, *old(selected_bbox_id)),
                cursor_position,
                label_class_id,
                catch_radius,
            ).selected,
    {
        *selected_bbox_id = None;
        let mode = *self;
        match mode {
            BoundingBoxEditMode::Idle => {
                if let Some(hit) = mode.get_part_element(cursor_position, annoation_bboxes, catch_radius) {
                    let hit_box = annoation_bboxes[hit.id];
                    proof {
                        use_type_invariant(&hit_box);
                    }
                    match hit.part {
                        BoundingBoxPart::CentralArea => {
                            *self = BoundingBoxEditMode::DragFullBox {
                                id: hit.id,
                                offset: cursor_position.offset_from(hit_box.center()),
                            };
                            *selected_bbox_id = Some(hit.id);
                        },
                        BoundingBoxPart::CornerUpperLeft => {
                            *self = BoundingBoxEditMode::DragCorner {
                                id: hit.id,
                                part: hit.part,
                                static_opposite_point: hit_box.br_corner(),
                            };
                        },
                        BoundingBoxPart::CornerUpperRight => {
                            *self = BoundingBoxEditMode::DragCorner {
                                id: hit.id,
                                part: hit.part,
                                static_opposite_point: hit_box.bl_corner(),
                            };
                        },
                        BoundingBoxPart::CornerLowerRight => {
                            *self = BoundingBoxEditMode::DragCorner {
                                id: hit.id,
                                part: hit.part,
                                static_opposite_point: hit_box.tl_corner(),
                            };
                        },
                        BoundingBoxPart::CornerLowerLeft => {
                            *self = BoundingBoxEditMode::DragCorner {
                                id: hit.id,
                                part: hit.part,
                                static_opposite_point: hit_box.tr_corner(),
                            };
                        },
                        BoundingBoxPart::EdgeLeft
                        | BoundingBoxPart::EdgeRight
                        | BoundingBoxPart::EdgeTop
                        | BoundingBoxPart::EdgeBottom => {
                            *self = BoundingBoxEditMode::DragEdge { id: hit.id, part: hit.part };
                        },
                    }
                } else {
                    annoation_bboxes.push(AnnoationBoundingBox::unplaced(label_class_id));
                    *self = BoundingBoxEditMode::New {
                        id: annoation_bboxes.len() - 1,
                        start_point: Some(cursor_position),
                    };
                    assert(views(annoation_bboxes@) =~= views(old(annoation_bboxes)@).push(
                        BoxView::unplaced(label_class_id),
                    ));
                }
            },
            BoundingBoxEditMode::New { id, start_point } => {
                if id < annoation_bboxes.len() {
                    match start_point {
                        None => {
                            *self = BoundingBoxEditMode::New { id, start_point: Some(cursor_position) };
                        },
                        Some(start) => {
                            let mut drawn = annoation_bboxes[id];
                            drawn.set_corner_points(start, cursor_position);
                            annoation_bboxes.set(id, drawn);
                            assert(views(annoation_bboxes@) =~= views(old(annoation_bboxes)@).update(
                                id as int,
                                drawn@,
                            ));
                        },
                    }
                } else {
                    *self = BoundingBoxEditMode::Idle;
                }
            },
            BoundingBoxEditMode::DragCorner { .. } => {},
            BoundingBoxEditMode::DragEdge { .. } => {},
            BoundingBoxEditMode::DragFullBox { .. } => {},
        }
    }

    /// The pointer was released: see [`after_button_up`]. The position of
    /// the release plays no part in it.
    pub fn mouse_button_up(
        &mut self,
        _cursor_position: Point,
        annoation_bboxes: &mut Vec<AnnoationBoundingBox>,
    )
        ensures
            *final(self) == BoundingBoxEditMode::Idle,
            views(final(annoation_bboxes)@) == after_button_up(
                session_of(*old(self), old(annoation_bboxes)@, None),
            ).boxes,
    {
        let mode = *self;
        match mode {
            BoundingBoxEditMode::New { id, .. } => {
                if id < annoation_bboxes.len() {
                    let drawn = annoation_bboxes[id];
                    if drawn.size().0 == 0 || drawn.size().1 == 0 {
                        annoation_bboxes.remove(id);
                        assert(views(annoation_bboxes@) =~= views(old(annoation_bboxes)@).remove(
                            id as int,
                        ));
                    }
                }
            },
            _ => {},
        }
        *self = BoundingBoxEditMode::Idle;
    }

    /// The pointer has moved to `cursor_position`: see [`after_update`].
    pub fn update(&mut self, cursor_position: Point, annoation_bboxes: &mut Vec<AnnoationBoundingBox>)
        ensures
            *final(self) == after_update(
                session_of(*old(self), old(annoation_bboxes)@, None),
                cursor_position,
            ).mode,
            views(final(annoation_bboxes)@) == after_update(
                session_of(*old(self), old(annoation_bboxes)@, None),
                cursor_position,
            ).boxes,
    {
        let mode = *self;
        let id = match mode {
            BoundingBoxEditMode::Idle => {
                return ;
            },
            BoundingBoxEditMode::New { id, .. } => id,
            BoundingBoxEditMode::DragCorner { id, .. } => id,
            BoundingBoxEditMode::DragEdge { id, .. } => id,
            BoundingBoxEditMode::DragFullBox { id, .. } => id,
        };
        if id >= annoation_bboxes.len() {
            *self = BoundingBoxEditMode::Idle;
            return ;
        }
        let mut edited = annoation_bboxes[id];
        match mode {
            BoundingBoxEditMode::Idle => {},
            BoundingBoxEditMode::New { start_point, .. } => {
                if let Some(start) = start_point {
                    edited.set_corner_points(start, cursor_position);
                }
            },
            BoundingBoxEditMode::DragCorner { static_opposite_point, .. } => {
                edited.set_corner_points(static_opposite_point, cursor_position);
            },
            BoundingBoxEditMode::DragEdge { part, .. } => match part {
                BoundingBoxPart::EdgeLeft => {
                    edited.set_x_min(cursor_position.x);
                },
                BoundingBoxPart::EdgeRight => {
                    edited.set_x_max(cursor_position.x);
                },
                BoundingBoxPart::EdgeTop => {
                    edited.set_y_min(cursor_position.y);
                },
                BoundingBoxPart::EdgeBottom => {
                    edited.set_y_max(cursor_position.y);
                },
                _ => {},
            },
            BoundingBoxEditMode::DragFullBox { offset, .. } => {
                let x: i128 = cursor_position.x as i128 - offset.x as i128;
                let y: i128 = cursor_position.y as i128 - offset.y as i128;
                if i32::MIN as i128 <= x && x <= i32::MAX as i128 && i32::MIN as i128 <= y && y
                    <= i32::MAX as i128 {
                    let p_center = Point { x: x as i32, y: y as i32 };
                    if edited.fits_at(p_center) {
                        edited.set_center(p_center);
                    }
                }
            },
        }
        annoation_bboxes.set(id, edited);
        assert(views(annoation_bboxes@) =~= views(old(annoation_bboxes)@).update(id as int, edited@));
    }

    /// Deletes the selected box: see [`after_delete`]. Returns whether a box
    /// was deleted.
    pub fn delete_selected(
        &mut self,
        annoation_bboxes: &mut Vec<AnnoationBoundingBox>,
        selected_bbox_id: &mut Option<usize>,
    ) -> (deleted: bool)
        ensures
            *final(self) == after_delete(
                session_of(*old(self), old(annoation_bboxes)@, *old(selected_bbox_id)),
            ).mode,
            views(final(annoation_bboxes)@) == after_delete(
                session_of(*old(self), old(annoation_bboxes)@, *old(selected_bbox_id)),
            ).boxes,
            *final(selected_bbox_id) == None::<usize>,
            deleted == (*old(selected_bbox_id) matches Some(k) && k < old(annoation_bboxes)@.len()),
    {
        let selected = *selected_bbox_id;
        *selected_bbox_id = None;
        match selected {
            Some(k) => {
                if k < annoation_bboxes.len() {
                    let mode = *self;
                    let target = match mode {
                        BoundingBoxEditMode::Idle => None,
                        BoundingBoxEditMode::New { id, .. } => Some(id),
                        BoundingBoxEditMode::DragCorner { id, .. } => Some(id),
                        BoundingBoxEditMode::DragEdge { id, .. } => Some(id),
                        BoundingBoxEditMode::DragFullBox { id, .. } => Some(id),
                    };
                    if let Some(id) = target {
                        if id >= k {
                            *self = BoundingBoxEditMode::Idle;
                        }
                    }
                    annoation_bboxes.remove(k);
                    assert(views(annoation_bboxes@) =~= views(old(annoation_bboxes)@).remove(k as int));
                    true
                } else {
                    false
                }
            },
            None => false,
        }
    }
}

/// The session that a mode, a collection of boxes and a selection make up.
pub open spec fn session_of(
    mode: BoundingBoxEditMode,
    boxes: Seq<AnnoationBoundingBox>,
    selected: Option<usize>,
) -> Session {
    Session { mode, boxes: views(boxes), selected }
}


/// Whether the mode of `s` names a box of the collection, or none at all.
pub open spec fn has_valid_target(s: Session) -> bool {
    target(s.mode) matches Some(id) ==> id < s.boxes.len()
}

/// A press that is followed by a release at the same point, with or without
/// a move to that point in between, adds no box. From any session the mode
/// is idle afterwards and the collection no longer than before; where the
/// press came upon an idle session and hit no box, every box is as it was
/// and the box that the press had started is gone again.
pub proof fn lemma_click_adds_no_box(s: Session, cursor: Point, class_id: u32, radius: u32)
    requires
        s.boxes.len() < usize::MAX,
    ensures
        ({
            let pressed = after_button_down(s, cursor, class_id, radius);
            let released = after_button_up(pressed);
            let released_after_move = after_button_up(after_update(pressed, cursor));
            &&& released.mode == BoundingBoxEditMode::Idle
            &&& released_after_move.mode == BoundingBoxEditMode::Idle
            &&& released.boxes.len() <= s.boxes.len()
            &&& released_after_move.boxes.len() <= s.boxes.len()
            &&& s.mode == BoundingBoxEditMode::Idle && find_hit(s.boxes, cursor, radius) is None ==> {
                &&& pressed.boxes.len() == s.boxes.len() + 1
                &&& released.boxes == s.boxes
                &&& released_after_move.boxes == s.boxes
            }
            &&& s.mode == BoundingBoxEditMode::Idle ==> released.boxes == s.boxes
        }),
{
    let pressed = after_button_down(s, cursor, class_id, radius);
    let released = after_button_up(pressed);
    let moved = after_update(pressed, cursor);
    let released_after_move = after_button_up(moved);
    if s.mode == BoundingBoxEditMode::Idle && find_hit(s.boxes, cursor, radius) is None {
        let id = s.boxes.len() as int;
        assert(pressed.boxes.remove(id) =~= s.boxes);
        assert(moved.boxes.remove(id) =~= s.boxes);
    }
}

/// A mode that names a box of the collection keeps naming one through a
/// press and through a move; a release and a deletion leave no mode behind
/// that names a box beyond the end. So an interaction that the engine
/// started never loses its box.
pub proof fn lemma_target_stays_valid(s: Session, cursor: Point, class_id: u32, radius: u32)
    requires
        s.boxes.len() < usize::MAX,
        has_valid_target(s),
    ensures
        has_valid_target(after_button_down(s, cursor, class_id, radius)),
        has_valid_target(after_update(s, cursor)),
        after_update(s, cursor).mode == s.mode,
        has_valid_target(after_button_up(s)),
        has_valid_target(after_delete(s)),
{
    match find_hit(s.boxes, cursor, radius) {
        Some(hit) => {
            let id = choose|id: int| is_first_claim(s.boxes, cursor, radius, id);
            assert(is_first_claim(s.boxes, cursor, radius, id));
        },
        None => {},
    }
}


/// A corner that is dragged leaves the corner across from it where it was:
/// after a press on a corner of box `id` and a move to `to`, the box spans
/// the corner that was opposite at the press and the point `to`, and every
/// other box is as it was.
pub proof fn lemma_corner_drag(s: Session, cursor: Point, to: Point, class_id: u32, radius: u32)
    requires
        s.boxes.len() < usize::MAX,
        s.mode == BoundingBoxEditMode::Idle,
        forall|i: int| 0 <= i < s.boxes.len() ==> (#[trigger] s.boxes[i]).wf(),
        find_hit(s.boxes, cursor, radius) matches Some(hit) && is_corner(hit.part),
    ensures
        ({
            let hit = find_hit(s.boxes, cursor, radius).unwrap();
            let fixed = opposite_corner(s.boxes[hit.id as int], hit.part);
            let pressed = after_button_down(s, cursor, class_id, radius);
            let dragged = after_update(pressed, to);
            let after = dragged.boxes[hit.id as int];
            &&& hit.id < s.boxes.len()
            &&& pressed.mode == (BoundingBoxEditMode::DragCorner {
                id: hit.id,
                part: hit.part,
                static_opposite_point: fixed,
            })
            &&& pressed.boxes == s.boxes
            &&& dragged.mode == pressed.mode
            &&& dragged.boxes == s.boxes.update(hit.id as int, after)
            &&& after == BoxView::spanning(fixed, to, s.boxes[hit.id as int].class_id)
            &&& after.x_min() == min_of(fixed.x as int, to.x as int)
            &&& after.x_max() == max_of(fixed.x as int, to.x as int)
            &&& after.y_min() == min_of(fixed.y as int, to.y as int)
            &&& after.y_max() == max_of(fixed.y as int, to.y as int)
            &&& s.boxes[hit.id as int].placed ==> {
                let before = s.boxes[hit.id as int];
                &&& fixed.x == before.x_min() || fixed.x == before.x_max()
                &&& fixed.y == before.y_min() || fixed.y == before.y_max()
            }
        }),
{
    let hit = find_hit(s.boxes, cursor, radius).unwrap();
    let id = choose|id: int| is_first_claim(s.boxes, cursor, radius, id);
    assert(is_first_claim(s.boxes, cursor, radius, id));
    let fixed = opposite_corner(s.boxes[hit.id as int], hit.part);
    lemma_spanning(fixed, to, s.boxes[hit.id as int].class_id);
}

/// An edge that is dragged takes the other three edges nowhere: after a
/// press on an edge of box `id` and a move to `to`, the box reaches, on the
/// axis of the drag, from the edge that was opposite at the press to the
/// pointer, and is as it was on the other axis; every other box is as it
/// was.
pub proof fn lemma_edge_drag_in_session(s: Session, cursor: Point, to: Point, class_id: u32, radius: u32)
    requires
        s.boxes.len() < usize::MAX,
        s.mode == BoundingBoxEditMode::Idle,
        forall|i: int| 0 <= i < s.boxes.len() ==> (#[trigger] s.boxes[i]).wf(),
        find_hit(s.boxes, cursor, radius) matches Some(hit) && is_edge(hit.part),
    ensures
        ({
            let hit = find_hit(s.boxes, cursor, radius).unwrap();
            let before = s.boxes[hit.id as int];
            let pressed = after_button_down(s, cursor, class_id, radius);
            let dragged = after_update(pressed, to);
            let after = dragged.boxes[hit.id as int];
            &&& hit.id < s.boxes.len()
            &&& pressed.mode == (BoundingBoxEditMode::DragEdge { id: hit.id, part: hit.part })
            &&& pressed.boxes == s.boxes
            &&& dragged.mode == pressed.mode
            &&& dragged.boxes == s.boxes.update(hit.id as int, after)
            &&& after.wf()
            &&& hit.part == BoundingBoxPart::EdgeLeft ==> {
                &&& after.x_min() == min_of(to.x as int, before.x_max())
                &&& after.x_max() == max_of(to.x as int, before.x_max())
                &&& after.y_min() == before.y_min() && after.y_max() == before.y_max()
            }
            &&& hit.part == BoundingBoxPart::EdgeRight ==> {
                &&& after.x_min() == min_of(to.x as int, before.x_min())
                &&& after.x_max() == max_of(to.x as int, before.x_min())
                &&& after.y_min() == before.y_min() && after.y_max() == before.y_max()
            }
            &&& hit.part == BoundingBoxPart::EdgeTop ==> {
                &&& after.y_min() == min_of(to.y as int, before.y_max())
                &&& after.y_max() == max_of(to.y as int, before.y_max())
                &&& after.x_min() == before.x_min() && after.x_max() == before.x_max()
            }
            &&& hit.part == BoundingBoxPart::EdgeBottom ==> {
                &&& after.y_min() == min_of(to.y as int, before.y_min())
                &&& after.y_max() == max_of(to.y as int, before.y_min())
                &&& after.x_min() == before.x_min() && after.x_max() == before.x_max()
            }
        }),
{
    let hit = find_hit(s.boxes, cursor, radius).unwrap();
    let id = choose|id: int| is_first_claim(s.boxes, cursor, radius, id);
    assert(is_first_claim(s.boxes, cursor, radius, id));
    let before = s.boxes[hit.id as int];
    lemma_part_at(before, cursor, radius);
    assert(before.placed);
    lemma_edge_drag(before, to.x as int);
    lemma_edge_drag(before, to.y as int);
}

/// A box that is moved keeps its size and keeps the pointer where it took
/// hold: after a press inside box `id` and a move to `to`, the centre of the
/// box has moved as far as the pointer has, unless that would take the box
/// off the grid, in which case it has not moved at all. The box is selected.
pub proof fn lemma_move(s: Session, cursor: Point, to: Point, class_id: u32, radius: u32)
    requires
        s.boxes.len() < usize::MAX,
        s.mode == BoundingBoxEditMode::Idle,
        forall|i: int| 0 <= i < s.boxes.len() ==> (#[trigger] s.boxes[i]).wf(),
        find_hit(s.boxes, cursor, radius) matches Some(hit) && hit.part
            == BoundingBoxPart::CentralArea,
    ensures
        ({
            let hit = find_hit(s.boxes, cursor, radius).unwrap();
            let before = s.boxes[hit.id as int];
            let pressed = after_button_down(s, cursor, class_id, radius);
            let dragged = after_update(pressed, to);
            let after = dragged.boxes[hit.id as int];
            let x = before.x_center + (to.x - cursor.x);
            let y = before.y_center + (to.y - cursor.y);
            &&& hit.id < s.boxes.len()
            &&& pressed.selected == Some(hit.id)
            &&& pressed.boxes == s.boxes
            &&& dragged.mode == pressed.mode
            &&& dragged.boxes == s.boxes.update(hit.id as int, after)
            &&& after.wf()
            &&& after.width == before.width && after.height == before.height
            &&& after == if on_axis(x) && on_axis(y) && before.fits_at(x, y) {
                before.moved_to(x, y)
            } else {
                before
            }
        }),
{
    let hit = find_hit(s.boxes, cursor, radius).unwrap();
    let id = choose|id: int| is_first_claim(s.boxes, cursor, radius, id);
    assert(is_first_claim(s.boxes, cursor, radius, id));
}

/// The shapes that the pointer takes over the image.
#[derive(Clone, Copy, Debug, PartialEq, Eq, Structural)]
pub enum CursorShape {
    Default,
    PointingHand,
    ResizeVertical,
    ResizeHorizontal,
    ResizeNwSe,
    ResizeNeSw,
    Move,
}

/// The shape that tells that `part` can be taken hold of.
pub open spec fn shape_of_part(part: BoundingBoxPart) -> CursorShape {
    match part {
        BoundingBoxPart::EdgeBottom | BoundingBoxPart::EdgeTop => CursorShape::ResizeVertical,
        BoundingBoxPart::EdgeLeft | BoundingBoxPart::EdgeRight => CursorShape::ResizeHorizontal,
        BoundingBoxPart::CornerUpperLeft | BoundingBoxPart::CornerLowerRight => CursorShape::ResizeNwSe,
        BoundingBoxPart::CornerLowerLeft | BoundingBoxPart::CornerUpperRight => CursorShape::ResizeNeSw,
        BoundingBoxPart::CentralArea => CursorShape::PointingHand,
    }
}

/// The shape of the pointer. Outside the image it has the default shape.
/// Within the image the drag in progress decides: a corner or an edge that
/// is dragged shows its resize shape, a box that is moved the move shape.
/// Without such a drag the part under the pointer decides, and over no
/// part the shape is the default one.
pub open spec fn cursor_shape(
    mode: BoundingBoxEditMode,
    under_cursor: Option<BoundingBoxElement>,
    cursor_within_image: bool,
) -> CursorShape {
    let hovering = match under_cursor {
        Some(element) => shape_of_part(element.part),
        None => CursorShape::Default,
    };
    if !cursor_within_image {
        CursorShape::Default
    } else {
        match mode {
            BoundingBoxEditMode::DragCorner { part, .. } => match part {
                BoundingBoxPart::CornerLowerLeft
                | BoundingBoxPart::CornerUpperRight
                | BoundingBoxPart::CornerUpperLeft
                | BoundingBoxPart::CornerLowerRight => shape_of_part(part),
                _ => hovering,
            },
            BoundingBoxEditMode::DragEdge { part, .. } => match part {
                BoundingBoxPart::EdgeBottom
                | BoundingBoxPart::EdgeTop
                | BoundingBoxPart::EdgeLeft
                | BoundingBoxPart::EdgeRight => shape_of_part(part),
                _ => hovering,
            },
            BoundingBoxEditMode::DragFullBox { .. } => CursorShape::Move,
            _ => hovering,
        }
    }
}

impl BoundingBoxEditMode {
    /// The shape that the pointer is to take: see [`cursor_shape`].
    pub fn cursor(&self, under_cursor: Option<BoundingBoxElement>, cursor_within_image: bool) -> (shape:
        CursorShape)
        ensures
            shape == cursor_shape(*self, under_cursor, cursor_within_image),
    {
        if !cursor_within_image {
            return CursorShape::Default;
        }
        let dragged = match *self {
            BoundingBoxEditMode::DragCorner { part, .. } => match part {
                BoundingBoxPart::CornerLowerLeft
                | BoundingBoxPart::CornerUpperRight
                | BoundingBoxPart::CornerUpperLeft
                | BoundingBoxPart::CornerLowerRight => Some(part),
                _ => None,
            },
            BoundingBoxEditMode::DragEdge { part, .. } => match part {
                BoundingBoxPart::EdgeBottom
                | BoundingBoxPart::EdgeTop
                | BoundingBoxPart::EdgeLeft
                | BoundingBoxPart::EdgeRight => Some(part),
                _ => None,
            },
            BoundingBoxEditMode::DragFullBox { .. } => {
                return CursorShape::Move;
            },
            _ => None,
        };
        let shown = match dragged {
            Some(part) => Some(part),
            None => match under_cursor {
                Some(element) => Some(element.part),
                None => None,
            },
        };
        match shown {
            Some(BoundingBoxPart::EdgeBottom) | Some(BoundingBoxPart::EdgeTop) => {
                CursorShape::ResizeVertical
            },
            Some(BoundingBoxPart::EdgeLeft) | Some(BoundingBoxPart::EdgeRight) => {
                CursorShape::ResizeHorizontal
            },
            Some(BoundingBoxPart::CornerUpperLeft) | Some(BoundingBoxPart::CornerLowerRight) => {
                CursorShape::ResizeNwSe
            },
            Some(BoundingBoxPart::CornerLowerLeft) | Some(BoundingBoxPart::CornerUpperRight) => {
                CursorShape::ResizeNeSw
            },
            Some(BoundingBoxPart::CentralArea) => CursorShape::PointingHand,
            None => CursorShape::Default,
        }
    }
}

} // verus!
