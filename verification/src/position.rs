//! Placing an element inside a container.

use vstd::prelude::*;

verus! {

/// Position for watermarks and overlays.
#[derive(Debug, Clone, Copy, PartialEq, Eq, Structural)]
pub enum Position {
    TopLeft,
    TopCenter,
    TopRight,
    CenterLeft,
    Center,
    CenterRight,
    BottomLeft,
    BottomCenter,
    BottomRight,
    /// Custom position (x, y from top-left).
    Custom(u32, u32),
}

/// Where along an axis an element is anchored.
pub enum Anchor {
    Start,
    Middle,
    End,
}

/// The space that an element leaves free along an axis, never negative.
pub open spec fn free_space(container: int, element: int) -> int {
    if element <= container {
        container - element
    } else {
        0
    }
}

/// The coordinate of an anchored element along an axis.
///
/// The padding keeps the element away from the edge it is anchored to, as far
/// as there is free space.
pub open spec fn offset(anchor: Anchor, container: int, element: int, padding: int) -> int {
    let free = free_space(container, element);
    match anchor {
        Anchor::Start => if padding <= free {
            padding
        } else {
            free
        },
        Anchor::Middle => free / 2,
        Anchor::End => free_space(free, padding),
    }
}

impl Position {
    /// How a position is anchored along the two axes; `None` for a position
    /// given in coordinates.
    pub open spec fn anchors(self) -> Option<(Anchor, Anchor)> {
        match self {
            Position::TopLeft => Some((Anchor::Start, Anchor::Start)),
            Position::TopCenter => Some((Anchor::Middle, Anchor::Start)),
            Position::TopRight => Some((Anchor::End, Anchor::Start)),
            Position::CenterLeft => Some((Anchor::Start, Anchor::Middle)),
            Position::Center => Some((Anchor::Middle, Anchor::Middle)),
            Position::CenterRight => Some((Anchor::End, Anchor::Middle)),
            Position::BottomLeft => Some((Anchor::Start, Anchor::End)),
            Position::BottomCenter => Some((Anchor::Middle, Anchor::End)),
            Position::BottomRight => Some((Anchor::End, Anchor::End)),
            Position::Custom(_, _) => None,
        }
    }

    /// Calculates pixel coordinates from the dimensions of the container and
    /// of the element.
    ///
    /// An element that is larger than the container is anchored to the left
    /// and top edge.
    pub fn calculate(
        &self,
        container_width: u32,
        container_height: u32,
        element_width: u32,
        element_height: u32,
        padding: u32,
    ) -> (r: (u32, u32))
        ensures
            match self.anchors() {
                Some((across, down)) => r.0 == offset(
                    across,
                    container_width as int,
                    element_width as int,
                    padding as int,
                ) && r.1 == offset(
                    down,
                    container_height as int,
                    element_height as int,
                    padding as int,
                ),
                None => *self == Position::Custom(r.0, r.1),
            },
    {
        let free_x = container_width.saturating_sub(element_width);
        let free_y = container_height.saturating_sub(element_height);
        let end_x = free_x.saturating_sub(padding);
        let end_y = free_y.saturating_sub(padding);
        let start_x = if padding < free_x {
            padding
        } else {
            free_x
        };
        let start_y = if padding < free_y {
            padding
        } else {
            free_y
        };
        match self {
            Position::TopLeft => (start_x, start_y),
            Position::TopCenter => (free_x / 2, start_y),
            Position::TopRight => (end_x, start_y),
            Position::CenterLeft => (start_x, free_y / 2),
            Position::Center => (free_x / 2, free_y / 2),
            Position::CenterRight => (end_x, free_y / 2),
            Position::BottomLeft => (start_x, end_y),
            Position::BottomCenter => (free_x / 2, end_y),
            Position::BottomRight => (end_x, end_y),
            Position::Custom(x, y) => (*x, *y),
        }
    }
}

/// An anchored element that fits into its container lies inside it, and one
/// that does not fit starts at the origin.
pub proof fn law_anchored_element_stays_inside(
    anchor: Anchor,
    container: int,
    element: int,
    padding: int,
)
    requires
        0 <= container,
        0 <= element,
        0 <= padding,
    ensures
        0 <= offset(anchor, container, element, padding),
        element <= container ==> offset(anchor, container, element, padding) + element
            <= container,
        element >= container ==> offset(anchor, container, element, padding) == 0,
{
}

/// Where there is room for it, the padding is the space between the element and
/// the edge that it is anchored to; where there is less, the element is moved up
/// to the other edge.  An element in the middle has the same space on both sides,
/// up to a unit.
pub proof fn law_padding_is_kept_from_the_anchored_edge(container: int, element: int, padding: int)
    requires
        0 <= element <= container,
        0 <= padding,
    ensures
        ({
            let start = offset(Anchor::Start, container, element, padding);
            let middle = offset(Anchor::Middle, container, element, padding);
            let end = offset(Anchor::End, container, element, padding);
            &&& padding + element <= container ==> start == padding
            &&& padding + element <= container ==> container - (end + element) == padding
            &&& padding + element > container ==> start + element == container && end == 0
            &&& 0 <= (container - (middle + element)) - middle <= 1
            &&& start + end == container - element
        }),
{
}

/// The first word of a position says where it is anchored from top to bottom, the
/// second where from left to right.
pub proof fn law_how_positions_are_anchored(p: Position)
    ensures
        p is Custom <==> p.anchors() is None,
        p.anchors() matches Some((across, down)) ==> {
            &&& across is Start <==> p is TopLeft || p is CenterLeft || p is BottomLeft
            &&& across is Middle <==> p is TopCenter || p is Center || p is BottomCenter
            &&& across is End <==> p is TopRight || p is CenterRight || p is BottomRight
            &&& down is Start <==> p is TopLeft || p is TopCenter || p is TopRight
            &&& down is Middle <==> p is CenterLeft || p is Center || p is CenterRight
            &&& down is End <==> p is BottomLeft || p is BottomCenter || p is BottomRight
        },
{
}

} // verus!
