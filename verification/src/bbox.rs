//! One annotated rectangle: its geometry in centre-and-size form, the queries
//! on it, and the classification of a pointer position against it.

use crate::geometry::{dist2, dist2_of, max_of, midpoint, midpoint_of, min_of, on_axis, span, span_of, Point};
use vstd::prelude::*;

verus! {

/// The catch radius of an editor that has not been told another one, for a
/// grid of one unit to the pixel.
pub const DEFAULT_CATCH_RADIUS: u32 = 20;

/// The region of a box that a pointer position falls on.
#[derive(Clone, Copy, Debug, PartialEq, Eq, Structural)]
pub enum BoundingBoxPart {
    CentralArea,
    CornerUpperLeft,
    CornerUpperRight,
    CornerLowerRight,
    CornerLowerLeft,
    EdgeLeft,
    EdgeRight,
    EdgeTop,
    EdgeBottom,
}

/// The mathematical content of an [`AnnoationBoundingBox`].
///
/// A box that has not been placed yet has no geometry: its four numbers are
/// zero, it contains no point and no pointer can catch any part of it.
pub struct BoxView {
    pub placed: bool,
    pub x_center: int,
    pub y_center: int,
    pub width: int,
    pub height: int,
    pub class_id: u32,
}

impl BoxView {
    /// The box with the given centre and size.
    pub open spec fn centered(
        x_center: int,
        y_center: int,
        width: int,
        height: int,
        class_id: u32,
    ) -> BoxView {
        BoxView { placed: true, x_center, y_center, width, height, class_id }
    }

    /// The box without geometry that a new annotation starts from.
    pub open spec fn unplaced(class_id: u32) -> BoxView {
        BoxView { placed: false, x_center: 0, y_center: 0, width: 0, height: 0, class_id }
    }

    /// The box that spans the two corner points `p1` and `p2`, in either order.
    pub open spec fn spanning(p1: Point, p2: Point, class_id: u32) -> BoxView {
        BoxView {
            placed: true,
            x_center: midpoint(p1.x as int, p2.x as int),
            y_center: midpoint(p1.y as int, p2.y as int),
            width: span(p1.x as int, p2.x as int),
            height: span(p1.y as int, p2.y as int),
            class_id,
        }
    }

    /// The left edge.
    pub open spec fn x_min(self) -> int {
        self.x_center - self.width / 2
    }

    /// The right edge.
    pub open spec fn x_max(self) -> int {
        self.x_min() + self.width
    }

    /// The top edge.
    pub open spec fn y_min(self) -> int {
        self.y_center - self.height / 2
    }

    /// The bottom edge.
    pub open spec fn y_max(self) -> int {
        self.y_min() + self.height
    }

    /// The centre and size fit their machine types and all four edges lie on
    /// the grid; an unplaced box holds zeros.
    pub open spec fn wf(self) -> bool {
        &&& 0 <= self.width <= u32::MAX
        &&& 0 <= self.height <= u32::MAX
        &&& on_axis(self.x_min())
        &&& on_axis(self.x_max())
        &&& on_axis(self.y_min())
        &&& on_axis(self.y_max())
        &&& !self.placed ==> self.x_center == 0 && self.y_center == 0 && self.width == 0
            && self.height == 0
    }

    /// Whether `(x, y)` lies within the box, edges included.
    pub open spec fn contains(self, x: int, y: int) -> bool {
        &&& self.placed
        &&& self.x_min() <= x <= self.x_max()
        &&& self.y_min() <= y <= self.y_max()
    }

    /// Whether the box lies within an image of the given width and height,
    /// whose top left corner is the origin.
    pub open spec fn lies_within(self, image_width: int, image_height: int) -> bool {
        &&& 0 <= self.x_min()
        &&& self.x_max() <= image_width
        &&& 0 <= self.y_min()
        &&& self.y_max() <= image_height
    }

    /// The same box with its centre at `(x, y)`.
    pub open spec fn moved_to(self, x: int, y: int) -> BoxView {
        if self.placed {
            BoxView { x_center: x, y_center: y, ..self }
        } else {
            self
        }
    }

    /// Whether the box, once its centre is at `(x, y)`, still lies on the grid.
    pub open spec fn fits_at(self, x: int, y: int) -> bool {
        self.moved_to(x, y).wf()
    }

    /// The same box with its horizontal extent replaced by the one between
    /// the coordinates `a` and `b`.
    pub open spec fn with_x_extent(self, a: int, b: int) -> BoxView {
        if self.placed {
            BoxView { x_center: midpoint(a, b), width: span(a, b), ..self }
        } else {
            self
        }
    }

    /// The same box with its vertical extent replaced by the one between the
    /// coordinates `a` and `b`.
    pub open spec fn with_y_extent(self, a: int, b: int) -> BoxView {
        if self.placed {
            BoxView { y_center: midpoint(a, b), height: span(a, b), ..self }
        } else {
            self
        }
    }

    /// The point that a drag of `part` is measured from: the corner itself, or
    /// the middle of the edge. The central area has no such point.
    pub open spec fn anchor(self, part: BoundingBoxPart) -> (int, int) {
        match part {
            BoundingBoxPart::CentralArea => (self.x_center, self.y_center),
            BoundingBoxPart::CornerUpperLeft => (self.x_min(), self.y_min()),
            BoundingBoxPart::CornerUpperRight => (self.x_max(), self.y_min()),
            BoundingBoxPart::CornerLowerLeft => (self.x_min(), self.y_max()),
            BoundingBoxPart::CornerLowerRight => (self.x_max(), self.y_max()),
            BoundingBoxPart::EdgeLeft => (self.x_min(), self.y_center),
            BoundingBoxPart::EdgeRight => (self.x_max(), self.y_center),
            BoundingBoxPart::EdgeTop => (self.x_center, self.y_min()),
            BoundingBoxPart::EdgeBottom => (self.x_center, self.y_max()),
        }
    }

    /// The squared distance at which `part` is found under the pointer at `p`:
    /// zero for the central area, otherwise the squared distance from `p` to
    /// the part's anchor.
    pub open spec fn part_dist2(self, part: BoundingBoxPart, p: Point) -> int {
        if part == BoundingBoxPart::CentralArea {
            0
        } else {
            dist2(self.anchor(part).0, self.anchor(part).1, p.x as int, p.y as int)
        }
    }

    /// Whether the pointer at `p` can take hold of `part` with the given
    /// catch radius.
    ///
    /// The central area catches every point of the box. A corner catches the
    /// points closer to it than the catch radius. An edge catches the points
    /// that lie alongside it and closer to its line than half the catch
    /// radius.
    pub open spec fn catches(self, part: BoundingBoxPart, p: Point, radius: u32) -> bool {
        self.placed && match part {
            BoundingBoxPart::CentralArea => self.contains(p.x as int, p.y as int),
            BoundingBoxPart::CornerUpperLeft
            | BoundingBoxPart::CornerUpperRight
            | BoundingBoxPart::CornerLowerLeft
            | BoundingBoxPart::CornerLowerRight => self.part_dist2(part, p) < radius * radius,
            BoundingBoxPart::EdgeLeft => 2 * span(self.x_min(), p.x as int) < radius
                && self.y_min() <= p.y <= self.y_max(),
            BoundingBoxPart::EdgeRight => 2 * span(self.x_max(), p.x as int) < radius
                && self.y_min() <= p.y <= self.y_max(),
            BoundingBoxPart::EdgeTop => 2 * span(self.y_min(), p.y as int) < radius
                && self.x_min() <= p.x <= self.x_max(),
            BoundingBoxPart::EdgeBottom => 2 * span(self.y_max(), p.y as int) < radius
                && self.x_min() <= p.x <= self.x_max(),
        }
    }

    /// Whether `part` is the part that the pointer at `p` takes hold of: it
    /// catches `p`, no part that catches `p` is found at a smaller distance,
    /// and among those at the same distance it comes first.
    pub open spec fn is_part_at(self, part: BoundingBoxPart, p: Point, radius: u32) -> bool {
        &&& self.catches(part, p, radius)
        &&& forall|other: BoundingBoxPart| #[trigger]
            self.catches(other, p, radius) ==> {
                ||| self.part_dist2(part, p) < self.part_dist2(other, p)
                ||| self.part_dist2(part, p) == self.part_dist2(other, p) && part_rank(part)
                    <= part_rank(other)
            }
    }

    /// The part of the box that the pointer at `p` takes hold of, if any.
    pub open spec fn part_at(self, p: Point, radius: u32) -> Option<BoundingBoxPart> {
        if exists|part: BoundingBoxPart| self.is_part_at(part, p, radius) {
            Some(choose|part: BoundingBoxPart| self.is_part_at(part, p, radius))
        } else {
            None
        }
    }
}

/// Whether `part` is one of the four corners.
pub open spec fn is_corner(part: BoundingBoxPart) -> bool {
    ||| part == BoundingBoxPart::CornerUpperLeft
    ||| part == BoundingBoxPart::CornerUpperRight
    ||| part == BoundingBoxPart::CornerLowerRight
    ||| part == BoundingBoxPart::CornerLowerLeft
}

/// Whether `part` is one of the four edges.
pub open spec fn is_edge(part: BoundingBoxPart) -> bool {
    ||| part == BoundingBoxPart::EdgeLeft
    ||| part == BoundingBoxPart::EdgeRight
    ||| part == BoundingBoxPart::EdgeTop
    ||| part == BoundingBoxPart::EdgeBottom
}

/// The order in which the parts of a box are tried. Of two parts that are
/// found at the same distance the one tried first is kept.
pub open spec fn part_rank(part: BoundingBoxPart) -> int {
    match part {
        BoundingBoxPart::CentralArea => 0,
        BoundingBoxPart::CornerUpperLeft => 1,
        BoundingBoxPart::CornerUpperRight => 2,
        BoundingBoxPart::CornerLowerLeft => 3,
        BoundingBoxPart::CornerLowerRight => 4,
        BoundingBoxPart::EdgeLeft => 5,
        BoundingBoxPart::EdgeRight => 6,
        BoundingBoxPart::EdgeTop => 7,
        BoundingBoxPart::EdgeBottom => 8,
    }
}

/// The box that spans two points lies on the grid, has the two points as
/// opposite corners whichever way round they are given, and is the box that
/// spans its own corners: to span it again changes nothing.
pub proof fn lemma_spanning(p1: Point, p2: Point, class_id: u32)
    ensures
        BoxView::spanning(p1, p2, class_id).wf(),
        BoxView::spanning(p1, p2, class_id) == BoxView::spanning(p2, p1, class_id),
        BoxView::spanning(p1, p2, class_id).x_min() == min_of(p1.x as int, p2.x as int),
        BoxView::spanning(p1, p2, class_id).x_max() == max_of(p1.x as int, p2.x as int),
        BoxView::spanning(p1, p2, class_id).y_min() == min_of(p1.y as int, p2.y as int),
        BoxView::spanning(p1, p2, class_id).y_max() == max_of(p1.y as int, p2.y as int),
        ({
            let b = BoxView::spanning(p1, p2, class_id);
            let top_left = Point { x: b.x_min() as i32, y: b.y_min() as i32 };
            let bottom_right = Point { x: b.x_max() as i32, y: b.y_max() as i32 };
            BoxView::spanning(top_left, bottom_right, class_id) == b
        }),
{
}

/// An edge that is dragged takes the other three edges nowhere: the box
/// keeps its extent on the other axis, and on the axis of the drag it
/// reaches from the edge that stays to the place of the pointer.
pub proof fn lemma_edge_drag(b: BoxView, to: int)
    requires
        b.wf(),
        b.placed,
        on_axis(to),
    ensures
        ({
            let left = b.with_x_extent(b.x_max(), to);
            &&& left.wf()
            &&& left.x_min() == min_of(to, b.x_max())
            &&& left.x_max() == max_of(to, b.x_max())
            &&& left.y_center == b.y_center && left.height == b.height
        }),
        ({
            let right = b.with_x_extent(to, b.x_min());
            &&& right.wf()
            &&& right.x_min() == min_of(to, b.x_min())
            &&& right.x_max() == max_of(to, b.x_min())
            &&& right.y_center == b.y_center && right.height == b.height
        }),
        ({
            let top = b.with_y_extent(b.y_max(), to);
            &&& top.wf()
            &&& top.y_min() == min_of(to, b.y_max())
            &&& top.y_max() == max_of(to, b.y_max())
            &&& top.x_center == b.x_center && top.width == b.width
        }),
        ({
            let bottom = b.with_y_extent(to, b.y_min());
            &&& bottom.wf()
            &&& bottom.y_min() == min_of(to, b.y_min())
            &&& bottom.y_max() == max_of(to, b.y_min())
            &&& bottom.x_center == b.x_center && bottom.width == b.width
        }),
{
}

/// One annotated rectangle with a class label.
///
/// The box is kept as a centre and a size. Its left and top edges lie half
/// the size, rounded down, before the centre, and its right and bottom edges
/// a full size after them. A box made by `Default` has not been placed yet
/// (see [`BoxView`]). Every box lies on the grid with all four edges.
#[derive(Clone, Copy, Debug, PartialEq, Eq)]
pub struct AnnoationBoundingBox {
    x_center: i32,
    y_center: i32,
    width: u32,
    height: u32,
    placed: bool,
    class_id: u32,
}

impl View for AnnoationBoundingBox {
    type V = BoxView;

    closed spec fn view(&self) -> BoxView {
        BoxView {
            placed: self.placed,
            x_center: self.x_center as int,
            y_center: self.y_center as int,
            width: self.width as int,
            height: self.height as int,
            class_id: self.class_id,
        }
    }
}

impl Default for AnnoationBoundingBox {
    fn default() -> (b: AnnoationBoundingBox)
        ensures
            b@ == BoxView::unplaced(0),
    {
        AnnoationBoundingBox { x_center: 0, y_center: 0, width: 0, height: 0, placed: false, class_id: 0 }
    }
}

impl AnnoationBoundingBox {
    /// What holds of every box: see [`BoxView::wf`].
    #[verifier::type_invariant]
    pub open spec fn wf(self) -> bool {
        self@.wf()
    }

    /// Two boxes with the same content are the same box.
    pub proof fn lemma_view_is_faithful(a: AnnoationBoundingBox, b: AnnoationBoundingBox)
        ensures
            a@ == b@ <==> a == b,
    {
    }

    /// A box without geometry that carries `class_id`.
    pub fn unplaced(class_id: u32) -> (b: AnnoationBoundingBox)
        ensures
            b@ == BoxView::unplaced(class_id),
    {
        AnnoationBoundingBox { x_center: 0, y_center: 0, width: 0, height: 0, placed: false, class_id }
    }

    /// Whether a box with this centre and size lies on the grid, so that
    /// [`AnnoationBoundingBox::from_center`] accepts it.
    pub fn fits(x_center: i32, y_center: i32, width: u32, height: u32) -> (ok: bool)
        ensures
            ok == BoxView::centered(x_center as int, y_center as int, width as int, height as int, 0).wf(),
    {
        let x_lo: i64 = x_center as i64 - (width / 2) as i64;
        let y_lo: i64 = y_center as i64 - (height / 2) as i64;
        x_lo >= i32::MIN as i64 && x_lo + width as i64 <= i32::MAX as i64 && y_lo >= i32::MIN as i64
            && y_lo + height as i64 <= i32::MAX as i64
    }

    /// The box with the given centre, size and class. It has to lie on the
    /// grid with all four edges: [`AnnoationBoundingBox::fits`] tells.
    pub fn from_center(x_center: i32, y_center: i32, width: u32, height: u32, class_id: u32) -> (b:
        AnnoationBoundingBox)
        requires
            BoxView::centered(x_center as int, y_center as int, width as int, height as int, class_id).wf(),
        ensures
            b@ == BoxView::centered(x_center as int, y_center as int, width as int, height as int, class_id),
    {
        AnnoationBoundingBox { x_center, y_center, width, height, placed: true, class_id }
    }

    /// Whether the box has geometry.
    pub fn is_placed(self) -> (r: bool)
        ensures
            r == self@.placed,
    {
        self.placed
    }

    /// The class label.
    pub fn class_id(self) -> (c: u32)
        ensures
            c == self@.class_id,
    {
        self.class_id
    }

    /// Replaces the class label and nothing else.
    pub fn set_class_id(&mut self, class_id: u32)
        ensures
            final(self)@ == (BoxView { class_id, ..old(self)@ }),
    {
        proof {
            use_type_invariant(&*self);
        }
        let relabelled = AnnoationBoundingBox { class_id, ..*self };
        *self = relabelled;
    }

    /// The left edge.
    pub fn x_min(self) -> (r: i32)
        ensures
            r == self@.x_min(),
    {
        proof {
            use_type_invariant(&self);
        }
        (self.x_center as i64 - (self.width / 2) as i64) as i32
    }

    /// The right edge.
    pub fn x_max(self) -> (r: i32)
        ensures
            r == self@.x_max(),
    {
        proof {
            use_type_invariant(&self);
        }
        (self.x_center as i64 - (self.width / 2) as i64 + self.width as i64) as i32
    }

    /// The top edge.
    pub fn y_min(self) -> (r: i32)
        ensures
            r == self@.y_min(),
    {
        proof {
            use_type_invariant(&self);
        }
        (self.y_center as i64 - (self.height / 2) as i64) as i32
    }

    /// The bottom edge.
    pub fn y_max(self) -> (r: i32)
        ensures
            r == self@.y_max(),
    {
        proof {
            use_type_invariant(&self);
        }
        (self.y_center as i64 - (self.height / 2) as i64 + self.height as i64) as i32
    }

    /// The top left corner.
    pub fn tl_corner(self) -> (p: Point)
        ensures
            p.x == self@.x_min(),
            p.y == self@.y_min(),
    {
        Point { x: self.x_min(), y: self.y_min() }
    }

    /// The top right corner.
    pub fn tr_corner(self) -> (p: Point)
        ensures
            p.x == self@.x_max(),
            p.y == self@.y_min(),
    {
        Point { x: self.x_max(), y: self.y_min() }
    }

    /// The bottom right corner.
    pub fn br_corner(self) -> (p: Point)
        ensures
            p.x == self@.x_max(),
            p.y == self@.y_max(),
    {
        Point { x: self.x_max(), y: self.y_max() }
    }

    /// The bottom left corner.
    pub fn bl_corner(self) -> (p: Point)
        ensures
            p.x == self@.x_min(),
            p.y == self@.y_max(),
    {
        Point { x: self.x_min(), y: self.y_max() }
    }

    /// The centre. Where the size is odd it lies half a unit before the
    /// middle of the box.
    pub fn center(self) -> (p: Point)
        ensures
            p.x == self@.x_center,
            p.y == self@.y_center,
    {
        Point { x: self.x_center, y: self.y_center }
    }

    /// The distance from the left edge to the right edge.
    pub fn width(self) -> (w: u32)
        ensures
            w == self@.width,
    {
        self.width
    }

    /// The distance from the top edge to the bottom edge.
    pub fn height(self) -> (h: u32)
        ensures
            h == self@.height,
    {
        self.height
    }

    /// Width and height.
    pub fn size(self) -> (s: (u32, u32))
        ensures
            s.0 == self@.width,
            s.1 == self@.height,
    {
        (self.width, self.height)
    }

    /// Whether the point `p` lies within the box, edges included.
    pub fn contains(self, p: (i32, i32)) -> (r: bool)
        ensures
            r == self@.contains(p.0 as int, p.1 as int),
    {
        self.placed && self.x_min() <= p.0 && p.0 <= self.x_max() && self.y_min() <= p.1 && p.1
            <= self.y_max()
    }

    /// Makes the box span the corner points `p1` and `p2`, whichever way
    /// round they are given. The class label stays.
    pub fn set_corner_points(&mut self, p1: Point, p2: Point)
        ensures
            final(self)@ == BoxView::spanning(p1, p2, old(self)@.class_id),
            final(self)@.x_min() == min_of(p1.x as int, p2.x as int),
            final(self)@.x_max() == max_of(p1.x as int, p2.x as int),
            final(self)@.y_min() == min_of(p1.y as int, p2.y as int),
            final(self)@.y_max() == max_of(p1.y as int, p2.y as int),
    {
        let spanning = AnnoationBoundingBox {
            x_center: midpoint_of(p1.x, p2.x),
            y_center: midpoint_of(p1.y, p2.y),
            width: span_of(p1.x, p2.x),
            height: span_of(p1.y, p2.y),
            placed: true,
            class_id: self.class_id,
        };
        *self = spanning;
    }

    /// Whether the box can be moved to the centre `p` without leaving the
    /// grid, so that [`AnnoationBoundingBox::set_center`] accepts `p`.
    pub fn fits_at(self, p: Point) -> (ok: bool)
        ensures
            ok == self@.fits_at(p.x as int, p.y as int),
    {
        proof {
            use_type_invariant(&self);
        }
        !self.placed || Self::fits(p.x, p.y, self.width, self.height)
    }

    /// Moves the box without changing its size. A box without geometry stays
    /// as it is.
    pub fn set_center(&mut self, p_center: Point)
        requires
            old(self)@.fits_at(p_center.x as int, p_center.y as int),
        ensures
            final(self)@ == old(self)@.moved_to(p_center.x as int, p_center.y as int),
    {
        if self.placed {
            let moved = AnnoationBoundingBox { x_center: p_center.x, y_center: p_center.y, ..*self };
            *self = moved;
        }
    }

    /// Puts the left edge at `x_min` and leaves the right edge where it is.
    /// An `x_min` beyond the right edge turns the box over: the old right
    /// edge becomes the left one. A box without geometry stays as it is.
    pub fn set_x_min(&mut self, x_min: i32)
        ensures
            final(self)@ == old(self)@.with_x_extent(old(self)@.x_max(), x_min as int),
            old(self)@.placed ==> final(self)@.x_min() == min_of(x_min as int, old(self)@.x_max())
                && final(self)@.x_max() == max_of(x_min as int, old(self)@.x_max()),
    {
        proof {
            use_type_invariant(&*self);
        }
        if self.placed {
            let x_max = self.x_max();
            let moved = AnnoationBoundingBox {
                width: span_of(x_max, x_min),
                x_center: midpoint_of(x_max, x_min),
                ..*self
            };
            *self = moved;
        }
    }

    /// Puts the right edge at `x_max` and leaves the left edge where it is.
    /// A box without geometry stays as it is.
    pub fn set_x_max(&mut self, x_max: i32)
        ensures
            final(self)@ == old(self)@.with_x_extent(x_max as int, old(self)@.x_min()),
            old(self)@.placed ==> final(self)@.x_min() == min_of(x_max as int, old(self)@.x_min())
                && final(self)@.x_max() == max_of(x_max as int, old(self)@.x_min()),
    {
        proof {
            use_type_invariant(&*self);
        }
        if self.placed {
            let x_min = self.x_min();
            let moved = AnnoationBoundingBox {
                width: span_of(x_max, x_min),
                x_center: midpoint_of(x_max, x_min),
                ..*self
            };
            *self = moved;
        }
    }

    /// Puts the top edge at `y_min` and leaves the bottom edge where it is.
    /// A box without geometry stays as it is.
    pub fn set_y_min(&mut self, y_min: i32)
        ensures
            final(self)@ == old(self)@.with_y_extent(old(self)@.y_max(), y_min as int),
            old(self)@.placed ==> final(self)@.y_min() == min_of(y_min as int, old(self)@.y_max())
                && final(self)@.y_max() == max_of(y_min as int, old(self)@.y_max()),
    {
        proof {
            use_type_invariant(&*self);
        }
        if self.placed {
            let y_max = self.y_max();
            let moved = AnnoationBoundingBox {
                height: span_of(y_max, y_min),
                y_center: midpoint_of(y_max, y_min),
                ..*self
            };
            *self = moved;
        }
    }

    /// Puts the bottom edge at `y_max` and leaves the top edge where it is.
    /// A box without geometry stays as it is.
    pub fn set_y_max(&mut self, y_max: i32)
        ensures
            final(self)@ == old(self)@.with_y_extent(y_max as int, old(self)@.y_min()),
            old(self)@.placed ==> final(self)@.y_min() == min_of(y_max as int, old(self)@.y_min())
                && final(self)@.y_max() == max_of(y_max as int, old(self)@.y_min()),
    {
        proof {
            use_type_invariant(&*self);
        }
        if self.placed {
            let y_min = self.y_min();
            let moved = AnnoationBoundingBox {
                height: span_of(y_max, y_min),
                y_center: midpoint_of(y_max, y_min),
                ..*self
            };
            *self = moved;
        }
    }

    /// The part of the box that a pointer at `cursor` takes hold of with the
    /// given catch radius, if any: see [`BoxView::part_at`].
    pub fn get_part(&self, cursor: Point, catch_radius: u32) -> (res: Option<BoundingBoxPart>)
        ensures
            res == self@.part_at(cursor, catch_radius),
            match res {
                Some(part) => self@.is_part_at(part, cursor, catch_radius),
                None => forall|part: BoundingBoxPart| !self@.catches(part, cursor, catch_radius),
            },
    {
        proof {
            use_type_invariant(self);
        }
        let ghost view = self@;
        if !self.placed {
            proof {
                lemma_part_at_is_the_best(view, cursor, catch_radius, None);
            }
            return None;
        }
        let x_min = self.x_min();
        let x_max = self.x_max();
        let y_min = self.y_min();
        let y_max = self.y_max();
        let within_x = x_min <= cursor.x && cursor.x <= x_max;
        let within_y = y_min <= cursor.y && cursor.y <= y_max;
        let r: u64 = catch_radius as u64;
        assert(r * r <= 0xffff_ffff * 0xffff_ffff) by (nonlinear_arith)
            requires
                0 <= r <= 0xffff_ffff,
        ;
        let r2: u128 = (r * r) as u128;

        let probe = Ghost(Probe { view, p: cursor, radius: catch_radius });
        let mut best = Best { part: None, dist2: 0 };
        assert(best.tracks(probe@, 0));
        best = best.offer(probe, BoundingBoxPart::CentralArea, within_x && within_y, 0);

        let d = dist2_of(x_min, y_min, cursor.x, cursor.y);
        best = best.offer(probe, BoundingBoxPart::CornerUpperLeft, d < r2, d);
        let d = dist2_of(x_max, y_min, cursor.x, cursor.y);
        best = best.offer(probe, BoundingBoxPart::CornerUpperRight, d < r2, d);
        let d = dist2_of(x_min, y_max, cursor.x, cursor.y);
        best = best.offer(probe, BoundingBoxPart::CornerLowerLeft, d < r2, d);
        let d = dist2_of(x_max, y_max, cursor.x, cursor.y);
        best = best.offer(probe, BoundingBoxPart::CornerLowerRight, d < r2, d);

        let d = dist2_of(x_min, self.y_center, cursor.x, cursor.y);
        let near = 2 * (span_of(x_min, cursor.x) as u64) < r;
        best = best.offer(probe, BoundingBoxPart::EdgeLeft, near && within_y, d);
        let d = dist2_of(x_max, self.y_center, cursor.x, cursor.y);
        let near = 2 * (span_of(x_max, cursor.x) as u64) < r;
        best = best.offer(probe, BoundingBoxPart::EdgeRight, near && within_y, d);
        let d = dist2_of(self.x_center, y_min, cursor.x, cursor.y);
        let near = 2 * (span_of(y_min, cursor.y) as u64) < r;
        best = best.offer(probe, BoundingBoxPart::EdgeTop, near && within_x, d);
        let d = dist2_of(self.x_center, y_max, cursor.x, cursor.y);
        let near = 2 * (span_of(y_max, cursor.y) as u64) < r;
        best = best.offer(probe, BoundingBoxPart::EdgeBottom, near && within_x, d);

        proof {
            lemma_part_at_is_the_best(view, cursor, catch_radius, best.part);
        }
        best.part
    }
}

/// Whether `best` is the right answer among the parts that come before rank
/// `tried`.
pub open spec fn is_best_among(
    view: BoxView,
    p: Point,
    radius: u32,
    best: Option<BoundingBoxPart>,
    tried: int,
) -> bool {
    match best {
        Some(part) => {
            &&& part_rank(part) < tried
            &&& view.catches(part, p, radius)
            &&& forall|other: BoundingBoxPart|
                part_rank(other) < tried && #[trigger] view.catches(other, p, radius) ==> {
                    ||| view.part_dist2(part, p) < view.part_dist2(other, p)
                    ||| view.part_dist2(part, p) == view.part_dist2(other, p) && part_rank(part)
                        <= part_rank(other)
                }
        },
        None => forall|other: BoundingBoxPart|
            part_rank(other) < tried ==> !#[trigger] view.catches(other, p, radius),
    }
}

/// The best part once `part` has been tried after `best`: `part` takes over
/// if it catches the pointer at a strictly smaller distance.
pub open spec fn try_part(
    view: BoxView,
    p: Point,
    radius: u32,
    best: Option<BoundingBoxPart>,
    part: BoundingBoxPart,
) -> Option<BoundingBoxPart> {
    if view.catches(part, p, radius) && (best is None || view.part_dist2(part, p)
        < view.part_dist2(best.unwrap(), p)) {
        Some(part)
    } else {
        best
    }
}

/// Trying the part of the next rank keeps the best part the right answer.
pub proof fn lemma_try_part(
    view: BoxView,
    p: Point,
    radius: u32,
    best: Option<BoundingBoxPart>,
    part: BoundingBoxPart,
)
    requires
        is_best_among(view, p, radius, best, part_rank(part)),
    ensures
        is_best_among(view, p, radius, try_part(view, p, radius, best, part), part_rank(part) + 1),
{
    assert forall|other: BoundingBoxPart| part_rank(other) == part_rank(part) implies other
        == part by {}
}

/// A pointer position and a catch radius that are held against a box.
struct Probe {
    view: BoxView,
    p: Point,
    radius: u32,
}

/// The best part found while the parts of a box are tried in order, with the
/// squared distance at which it was found.
struct Best {
    part: Option<BoundingBoxPart>,
    dist2: u128,
}

impl Best {
    spec fn tracks(self, probe: Probe, tried: int) -> bool {
        &&& is_best_among(probe.view, probe.p, probe.radius, self.part, tried)
        &&& self.part matches Some(part) ==> self.dist2 == probe.view.part_dist2(part, probe.p)
    }

    /// Tries the next part: see [`try_part`].
    fn offer(self, Ghost(probe): Ghost<Probe>, part: BoundingBoxPart, caught: bool, dist2: u128) -> (res:
        Best)
        requires
            self.tracks(probe, part_rank(part)),
            caught == probe.view.catches(part, probe.p, probe.radius),
            caught ==> dist2 == probe.view.part_dist2(part, probe.p),
        ensures
            res.tracks(probe, part_rank(part) + 1),
    {
        proof {
            lemma_try_part(probe.view, probe.p, probe.radius, self.part, part);
        }
        if caught && (self.part.is_none() || dist2 < self.dist2) {
            Best { part: Some(part), dist2 }
        } else {
            self
        }
    }
}

/// Every pointer position has its answer: the part it takes hold of catches
/// it at the smallest distance of all parts that catch it, and there is no
/// answer only where no part catches it.
pub proof fn lemma_part_at(view: BoxView, p: Point, radius: u32)
    ensures
        match view.part_at(p, radius) {
            Some(part) => view.is_part_at(part, p, radius),
            None => forall|other: BoundingBoxPart| !#[trigger] view.catches(other, p, radius),
        },
{
    let b0 = None;
    let b1 = try_part(view, p, radius, b0, BoundingBoxPart::CentralArea);
    lemma_try_part(view, p, radius, b0, BoundingBoxPart::CentralArea);
    let b2 = try_part(view, p, radius, b1, BoundingBoxPart::CornerUpperLeft);
    lemma_try_part(view, p, radius, b1, BoundingBoxPart::CornerUpperLeft);
    let b3 = try_part(view, p, radius, b2, BoundingBoxPart::CornerUpperRight);
    lemma_try_part(view, p, radius, b2, BoundingBoxPart::CornerUpperRight);
    let b4 = try_part(view, p, radius, b3, BoundingBoxPart::CornerLowerLeft);
    lemma_try_part(view, p, radius, b3, BoundingBoxPart::CornerLowerLeft);
    let b5 = try_part(view, p, radius, b4, BoundingBoxPart::CornerLowerRight);
    lemma_try_part(view, p, radius, b4, BoundingBoxPart::CornerLowerRight);
    let b6 = try_part(view, p, radius, b5, BoundingBoxPart::EdgeLeft);
    lemma_try_part(view, p, radius, b5, BoundingBoxPart::EdgeLeft);
    let b7 = try_part(view, p, radius, b6, BoundingBoxPart::EdgeRight);
    lemma_try_part(view, p, radius, b6, BoundingBoxPart::EdgeRight);
    let b8 = try_part(view, p, radius, b7, BoundingBoxPart::EdgeTop);
    lemma_try_part(view, p, radius, b7, BoundingBoxPart::EdgeTop);
    let b9 = try_part(view, p, radius, b8, BoundingBoxPart::EdgeBottom);
    lemma_try_part(view, p, radius, b8, BoundingBoxPart::EdgeBottom);
    lemma_part_at_is_the_best(view, p, radius, b9);
}

/// Where two parts of a box both catch the pointer, the nearer one decides:
/// the answer is never the part that is farther away, whichever of the two
/// is tried first.
pub proof fn lemma_nearer_part_wins(
    view: BoxView,
    p: Point,
    radius: u32,
    near: BoundingBoxPart,
    far: BoundingBoxPart,
)
    requires
        view.catches(near, p, radius),
        view.catches(far, p, radius),
        view.part_dist2(near, p) < view.part_dist2(far, p),
    ensures
        view.part_at(p, radius) is Some,
        view.part_at(p, radius) != Some(far),
        view.part_dist2(view.part_at(p, radius).unwrap(), p) <= view.part_dist2(near, p),
{
    lemma_part_at(view, p, radius);
}

/// Once all nine parts have been tried, the best one found is the part that
/// the pointer takes hold of.
proof fn lemma_part_at_is_the_best(view: BoxView, p: Point, radius: u32, best: Option<BoundingBoxPart>)
    requires
        is_best_among(view, p, radius, best, 9),
    ensures
        view.part_at(p, radius) == best,
        match best {
            Some(part) => view.is_part_at(part, p, radius),
            None => forall|other: BoundingBoxPart| !#[trigger] view.catches(other, p, radius),
        },
{
    match best {
        Some(part) => {
            let chosen = choose|q: BoundingBoxPart| view.is_part_at(q, p, radius);
            lemma_part_at_is_unique(view, p, radius, part, chosen);
        },
        None => {},
    }
}

/// At most one part answers to [`BoxView::is_part_at`].
pub proof fn lemma_part_at_is_unique(
    view: BoxView,
    p: Point,
    radius: u32,
    a: BoundingBoxPart,
    b: BoundingBoxPart,
)
    requires
        view.is_part_at(a, p, radius),
        view.is_part_at(b, p, radius),
    ensures
        a == b,
{
}

} // verus!
